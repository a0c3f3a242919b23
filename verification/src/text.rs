//! Character-level text utilities shared by the citation scanner, the
//! resolver and the renderers. Text is handled as vectors of `char`, whose
//! view is a `Seq<char>`; conversion to and from `String` happens at the
//! library boundary.

use vstd::prelude::*;

verus! {

/// Whitespace as the citation scanner recognizes it (the ASCII whitespace
/// characters).
pub open spec fn is_wspace(c: char) -> bool {
    c == ' ' || c == '\t' || c == '\n' || c == '\r' || c == '\u{b}' || c == '\u{c}'
}

/// Executable test for [`is_wspace`].
pub fn wspace_char(c: char) -> (r: bool)
    ensures
        r == is_wspace(c),
{
    c == ' ' || c == '\t' || c == '\n' || c == '\r' || c == '\u{b}' || c == '\u{c}'
}

/// A decimal digit.
pub open spec fn is_digit(c: char) -> bool {
    '0' <= c && c <= '9'
}

/// Executable test for [`is_digit`].
pub fn digit_char(c: char) -> (r: bool)
    ensures
        r == is_digit(c),
{
    '0' <= c && c <= '9'
}

/// An ASCII capital letter, which may open an author-year citation.
pub open spec fn is_upper(c: char) -> bool {
    'A' <= c && c <= 'Z'
}

/// Executable test for [`is_upper`].
pub fn upper_char(c: char) -> (r: bool)
    ensures
        r == is_upper(c),
{
    'A' <= c && c <= 'Z'
}

/// ASCII lowercasing of one character; all others are unchanged.
pub open spec fn lower_char(c: char) -> char {
    if 'A' <= c && c <= 'Z' {
        ((c as u8) + 32) as char
    } else {
        c
    }
}

/// Executable ASCII lowercasing of one character.
pub fn to_lower_char(c: char) -> (r: char)
    ensures
        r == lower_char(c),
{
    if 'A' <= c && c <= 'Z' {
        ((c as u8) + 32) as char
    } else {
        c
    }
}

/// ASCII lowercasing of a character sequence.
pub open spec fn lower_seq(s: Seq<char>) -> Seq<char> {
    s.map_values(|c: char| lower_char(c))
}

/// Executable ASCII lowercasing of a character vector.
pub fn to_lower_chars(s: &Vec<char>) -> (r: Vec<char>)
    ensures
        r@ == lower_seq(s@),
{
    let mut out: Vec<char> = Vec::new();
    let mut i: usize = 0;
    while i < s.len()
        invariant
            i <= s@.len(),
            out@ == lower_seq(s@.subrange(0, i as int)),
        decreases s@.len() - i,
    {
        out.push(to_lower_char(s[i]));
        proof {
            assert(s@.subrange(0, i + 1).drop_last() =~= s@.subrange(0, i as int));
            assert(lower_seq(s@.subrange(0, i + 1)) =~= lower_seq(
                s@.subrange(0, i as int),
            ).push(lower_char(s@[i as int])));
        }
        i += 1;
    }
    proof {
        assert(s@.subrange(0, s@.len() as int) =~= s@);
    }
    out
}

/// Converts a string slice to the vector of its characters.
pub fn str_to_chars(s: &str) -> (r: Vec<char>)
    ensures
        r@ == s@,
{
    let n = s.unicode_len();
    let mut v: Vec<char> = Vec::new();
    let mut i: usize = 0;
    while i < n
        invariant
            n == s@.len(),
            i <= n,
            v@ == s@.subrange(0, i as int),
        decreases n - i,
    {
        v.push(s.get_char(i));
        proof {
            assert(v@ =~= s@.subrange(0, i + 1));
        }
        i += 1;
    }
    proof {
        assert(v@ =~= s@);
    }
    v
}

/// Relies on `String`'s `FromIterator` implementation: collecting characters
/// yields the string made of exactly those characters, in order.
#[verifier::external_body]
pub fn chars_to_string(v: &Vec<char>) -> (s: String)
    ensures
        s@ == v@,
{
    v.iter().collect()
}

/// The needle `n` occurs in `h` starting at index `i`.
pub open spec fn matches_at(h: Seq<char>, n: Seq<char>, i: int) -> bool {
    &&& 0 <= i
    &&& i + n.len() <= h.len()
    &&& forall|j: int| 0 <= j < n.len() ==> h[i + j] == n[j]
}

/// Executable test for [`matches_at`].
pub fn matches_at_exec(h: &Vec<char>, n: &Vec<char>, i: usize) -> (r: bool)
    ensures
        r == matches_at(h@, n@, i as int),
{
    if i > h.len() || n.len() > h.len() - i {
        return false;
    }
    let mut j: usize = 0;
    while j < n.len()
        invariant
            i + n.len() <= h.len(),
            j <= n.len(),
            forall|k: int| 0 <= k < j ==> h@[i + k] == n@[k],
        decreases n@.len() - j,
    {
        if h[i + j] != n[j] {
            return false;
        }
        j += 1;
    }
    true
}

/// Index of the first occurrence of character `c` in `h` at or after `i`.
pub open spec fn find_char(h: Seq<char>, c: char, i: int) -> Option<int>
    decreases h.len() - i,
{
    if i < 0 || i >= h.len() {
        None
    } else if h[i] == c {
        Some(i)
    } else {
        find_char(h, c, i + 1)
    }
}

pub proof fn lemma_find_char_bounds(h: Seq<char>, c: char, from: int)
    requires
        find_char(h, c, from) is Some,
    ensures
        from <= find_char(h, c, from)->0 < h.len(),
        h[find_char(h, c, from)->0] == c,
        forall|k: int| from <= k < find_char(h, c, from)->0 ==> h[k] != c,
    decreases h.len() - from,
{
    if 0 <= from < h.len() && h[from] != c {
        lemma_find_char_bounds(h, c, from + 1);
    }
}

pub proof fn lemma_find_char_exact(h: Seq<char>, c: char, j: int, q: int)
    requires
        0 <= j <= q < h.len(),
        h[q] == c,
        forall|k: int| j <= k < q ==> h[k] != c,
    ensures
        find_char(h, c, j) == Some(q),
    decreases q - j,
{
    if j < q {
        lemma_find_char_exact(h, c, j + 1, q);
    }
}

/// Executable search for [`find_char`].
pub fn find_char_exec(h: &Vec<char>, c: char, from: usize) -> (r: Option<usize>)
    ensures
        match r {
            Some(i) => from <= i && i < h@.len() && find_char(h@, c, from as int) == Some(
                i as int,
            ),
            None => find_char(h@, c, from as int) is None,
        },
{
    let mut i: usize = from;
    while i < h.len()
        invariant
            from <= i,
            find_char(h@, c, from as int) == find_char(h@, c, i as int),
        decreases h.len() - i,
    {
        if h[i] == c {
            return Some(i);
        }
        i += 1;
    }
    None
}

/// Index of the first occurrence of the needle `n` in `h` at or after `i`.
pub open spec fn find_sub(h: Seq<char>, n: Seq<char>, i: int) -> Option<int>
    decreases h.len() - i,
{
    if i < 0 || i + n.len() > h.len() {
        None
    } else if matches_at(h, n, i) {
        Some(i)
    } else {
        find_sub(h, n, i + 1)
    }
}

/// The needle `n` occurs somewhere in `h`.
pub open spec fn contains_sub(h: Seq<char>, n: Seq<char>) -> bool {
    find_sub(h, n, 0) is Some
}

pub proof fn lemma_find_sub_bounds(h: Seq<char>, n: Seq<char>, from: int)
    requires
        find_sub(h, n, from) is Some,
    ensures
        from <= find_sub(h, n, from)->0,
        find_sub(h, n, from)->0 + n.len() <= h.len(),
        matches_at(h, n, find_sub(h, n, from)->0),
    decreases h.len() - from,
{
    if !(from < 0 || from + n.len() > h.len()) && !matches_at(h, n, from) {
        lemma_find_sub_bounds(h, n, from + 1);
    }
}

/// Executable search for [`find_sub`].
pub fn find_sub_exec(h: &Vec<char>, n: &Vec<char>, from: usize) -> (r: Option<usize>)
    ensures
        match r {
            Some(i) => from <= i && find_sub(h@, n@, from as int) == Some(i as int),
            None => find_sub(h@, n@, from as int) is None,
        },
{
    if from > h.len() || n.len() > h.len() - from {
        return None;
    }
    let last = h.len() - n.len();
    let mut i: usize = from;
    while i <= last
        invariant
            from <= i,
            i <= last + 1,
            n.len() + last == h.len(),
            find_sub(h@, n@, from as int) == find_sub(h@, n@, i as int),
        decreases last + 1 - i,
    {
        if matches_at_exec(h, n, i) {
            return Some(i);
        }
        i += 1;
    }
    None
}

/// Executable test for [`contains_sub`].
pub fn contains_sub_exec(h: &Vec<char>, n: &Vec<char>) -> (r: bool)
    ensures
        r == contains_sub(h@, n@),
{
    find_sub_exec(h, n, 0).is_some()
}

/// The sequence without its leading whitespace.
pub open spec fn trim_start(s: Seq<char>) -> Seq<char>
    decreases s.len(),
{
    if s.len() > 0 && is_wspace(s[0]) {
        trim_start(s.drop_first())
    } else {
        s
    }
}

/// The sequence without its trailing whitespace.
pub open spec fn trim_end(s: Seq<char>) -> Seq<char>
    decreases s.len(),
{
    if s.len() > 0 && is_wspace(s.last()) {
        trim_end(s.drop_last())
    } else {
        s
    }
}

/// The sequence without leading and trailing whitespace.
pub open spec fn trim(s: Seq<char>) -> Seq<char> {
    trim_end(trim_start(s))
}

proof fn lemma_trim_start_skip(s: Seq<char>, k: int)
    requires
        0 <= k <= s.len(),
        forall|i: int| 0 <= i < k ==> is_wspace(s[i]),
        k < s.len() ==> !is_wspace(s[k]),
    ensures
        trim_start(s) == s.subrange(k, s.len() as int),
    decreases k,
{
    if k == 0 {
        if s.len() > 0 {
            assert(!is_wspace(s[0]));
        }
        assert(s.subrange(0, s.len() as int) =~= s);
    } else {
        assert(is_wspace(s[0]));
        let t = s.drop_first();
        assert(forall|i: int| 0 <= i < k - 1 ==> t[i] == s[i + 1]);
        lemma_trim_start_skip(t, k - 1);
        assert(t.subrange(k - 1, t.len() as int) =~= s.subrange(k, s.len() as int));
    }
}

proof fn lemma_trim_end_take(s: Seq<char>, k: int)
    requires
        0 <= k <= s.len(),
        forall|i: int| k <= i < s.len() ==> is_wspace(s[i]),
        k > 0 ==> !is_wspace(s[k - 1]),
    ensures
        trim_end(s) == s.subrange(0, k),
    decreases s.len() - k,
{
    if k == s.len() {
        if s.len() > 0 {
            assert(!is_wspace(s.last()));
        }
        assert(s.subrange(0, s.len() as int) =~= s);
    } else {
        assert(is_wspace(s.last()));
        let t = s.drop_last();
        lemma_trim_end_take(t, k);
        assert(t.subrange(0, k) =~= s.subrange(0, k));
    }
}

/// Trimming whitespace from the end keeps every character up to any
/// non-whitespace position.
pub proof fn lemma_trim_end_keeps_prefix(s: Seq<char>, q: int)
    requires
        0 <= q < s.len(),
        !is_wspace(s[q]),
    ensures
        q < trim_end(s).len() <= s.len(),
        trim_end(s) == s.subrange(0, trim_end(s).len() as int),
    decreases s.len(),
{
    if s.len() > 0 && is_wspace(s.last()) {
        let t = s.drop_last();
        lemma_trim_end_keeps_prefix(t, q);
        assert(t.subrange(0, trim_end(t).len() as int) =~= s.subrange(
            0,
            trim_end(t).len() as int,
        ));
    } else {
        assert(s.subrange(0, s.len() as int) =~= s);
    }
}

/// A sequence whose head is not whitespace is unchanged by start
/// trimming.
pub proof fn lemma_trim_start_nonws(s: Seq<char>)
    requires
        s.len() > 0,
        !is_wspace(s[0]),
    ensures
        trim_start(s) == s,
{
}

/// Executable trimming of surrounding whitespace.
pub fn trim_exec(s: &Vec<char>) -> (r: Vec<char>)
    ensures
        r@ == trim(s@),
{
    let mut a: usize = 0;
    while a < s.len() && wspace_char(s[a])
        invariant
            a <= s@.len(),
            forall|i: int| 0 <= i < a ==> is_wspace(s@[i]),
        decreases s@.len() - a,
    {
        a += 1;
    }
    proof {
        lemma_trim_start_skip(s@, a as int);
    }
    let mut b: usize = s.len();
    while b > a && wspace_char(s[b - 1])
        invariant
            a <= b <= s@.len(),
            forall|i: int| b <= i < s@.len() ==> is_wspace(s@[i]),
        decreases b,
    {
        b -= 1;
    }
    proof {
        let t = trim_start(s@);
        assert(t =~= s@.subrange(a as int, s@.len() as int));
        assert(forall|i: int| b - a <= i < t.len() ==> is_wspace(t[i]));
        if b > a {
            assert(!is_wspace(t[b - a - 1]));
        }
        lemma_trim_end_take(t, b - a);
    }
    let mut out: Vec<char> = Vec::new();
    let mut i: usize = a;
    while i < b
        invariant
            a <= i <= b <= s@.len(),
            out@ == s@.subrange(a as int, i as int),
        decreases b - i,
    {
        out.push(s[i]);
        proof {
            assert(out@ =~= s@.subrange(a as int, i + 1));
        }
        i += 1;
    }
    proof {
        assert(trim_start(s@).subrange(0, b - a) =~= s@.subrange(a as int, b as int));
    }
    out
}

/// `s` ends with the given suffix.
pub open spec fn ends_with(s: Seq<char>, suffix: Seq<char>) -> bool {
    s.len() >= suffix.len() && matches_at(s, suffix, s.len() - suffix.len())
}

/// Executable test for [`ends_with`].
pub fn ends_with_exec(s: &Vec<char>, suffix: &Vec<char>) -> (r: bool)
    ensures
        r == ends_with(s@, suffix@),
{
    if suffix.len() > s.len() {
        return false;
    }
    matches_at_exec(s, suffix, s.len() - suffix.len())
}

/// Executable trimming of trailing whitespace only.
pub fn trim_end_exec(s: &Vec<char>) -> (r: Vec<char>)
    ensures
        r@ == trim_end(s@),
{
    let mut b: usize = s.len();
    while b > 0 && wspace_char(s[b - 1])
        invariant
            b <= s.len(),
            forall|i: int| b <= i < s@.len() ==> is_wspace(s@[i]),
        decreases b,
    {
        b -= 1;
    }
    proof {
        if b > 0 {
            assert(!is_wspace(s@[b - 1]));
        }
        lemma_trim_end_take(s@, b as int);
    }
    subvec(s, 0, b)
}

/// Lexicographic order on character sequences, by code point; a proper
/// prefix comes first. This is the order `str` comparison uses.
pub open spec fn lex_lt(a: Seq<char>, b: Seq<char>) -> bool
    decreases a.len(),
{
    if b.len() == 0 {
        false
    } else if a.len() == 0 {
        true
    } else if a[0] != b[0] {
        a[0] < b[0]
    } else {
        lex_lt(a.drop_first(), b.drop_first())
    }
}

/// Of two sequences, either one is smaller or they are equal.
pub proof fn lemma_lex_trichotomy(a: Seq<char>, b: Seq<char>)
    ensures
        lex_lt(a, b) || lex_lt(b, a) || a == b,
        lex_lt(a, b) ==> !lex_lt(b, a) && a != b,
    decreases a.len(),
{
    if a.len() > 0 && b.len() > 0 && a[0] == b[0] {
        lemma_lex_trichotomy(a.drop_first(), b.drop_first());
        if a.drop_first() == b.drop_first() {
            assert forall|i: int| 0 <= i < a.len() implies a[i] == b[i] by {
                if i > 0 {
                    assert(a[i] == a.drop_first()[i - 1]);
                    assert(b[i] == b.drop_first()[i - 1]);
                }
            }
            assert(a =~= b);
        }
    }
}

/// Lexicographic order is transitive.
pub proof fn lemma_lex_transitive(a: Seq<char>, b: Seq<char>, c: Seq<char>)
    requires
        lex_lt(a, b),
        lex_lt(b, c),
    ensures
        lex_lt(a, c),
    decreases a.len(),
{
    if a.len() > 0 && b.len() > 0 && c.len() > 0 && a[0] == b[0] && b[0] == c[0] {
        lemma_lex_transitive(a.drop_first(), b.drop_first(), c.drop_first());
    }
}

/// Executable test for [`lex_lt`].
pub fn lex_lt_exec(a: &Vec<char>, b: &Vec<char>) -> (r: bool)
    ensures
        r == lex_lt(a@, b@),
{
    let mut i: usize = 0;
    proof {
        assert(a@.skip(0) =~= a@);
        assert(b@.skip(0) =~= b@);
    }
    while i < a.len() && i < b.len()
        invariant
            i <= a.len(),
            i <= b.len(),
            lex_lt(a@, b@) == lex_lt(a@.skip(i as int), b@.skip(i as int)),
        decreases a.len() - i,
    {
        proof {
            let x = a@.skip(i as int);
            let y = b@.skip(i as int);
            assert(x[0] == a@[i as int] && y[0] == b@[i as int]);
            assert(x.drop_first() =~= a@.skip(i + 1));
            assert(y.drop_first() =~= b@.skip(i + 1));
        }
        if a[i] != b[i] {
            return a[i] < b[i];
        }
        i += 1;
    }
    proof {
        let x = a@.skip(i as int);
        let y = b@.skip(i as int);
        assert(x.len() == 0 || y.len() == 0);
    }
    i == a.len() && i < b.len()
}

/// The part of `s` before the first occurrence of `c` (all of `s` when `c`
/// does not occur). This is how a citation's page locator is cut away.
pub open spec fn before_char(s: Seq<char>, c: char) -> Seq<char> {
    match find_char(s, c, 0) {
        Some(i) => s.subrange(0, i),
        None => s,
    }
}

/// Executable computation of [`before_char`].
pub fn before_char_exec(s: &Vec<char>, c: char) -> (r: Vec<char>)
    ensures
        r@ == before_char(s@, c),
{
    let end = match find_char_exec(s, c, 0) {
        Some(i) => i,
        None => s.len(),
    };
    let mut out: Vec<char> = Vec::new();
    let mut i: usize = 0;
    while i < end
        invariant
            end <= s.len(),
            i <= end,
            out@ == s@.subrange(0, i as int),
        decreases end - i,
    {
        out.push(s[i]);
        proof {
            assert(out@ =~= s@.subrange(0, i + 1));
        }
        i += 1;
    }
    proof {
        if find_char(s@, c, 0) is None {
            assert(out@ =~= s@);
        }
    }
    out
}

/// Executable copy of `s[a..b]`.
pub fn subvec(s: &Vec<char>, a: usize, b: usize) -> (r: Vec<char>)
    requires
        a <= b <= s@.len(),
    ensures
        r@ == s@.subrange(a as int, b as int),
{
    let mut out: Vec<char> = Vec::new();
    let mut i: usize = a;
    while i < b
        invariant
            a <= i <= b <= s.len(),
            out@ == s@.subrange(a as int, i as int),
        decreases b - i,
    {
        out.push(s[i]);
        proof {
            assert(out@ =~= s@.subrange(a as int, i + 1));
        }
        i += 1;
    }
    out
}

/// Appends all characters of `s` to `out`.
pub fn push_all(out: &mut Vec<char>, s: &Vec<char>)
    ensures
        final(out)@ == old(out)@ + s@,
{
    let mut i: usize = 0;
    while i < s.len()
        invariant
            i <= s.len(),
            out@ == old(out)@ + s@.subrange(0, i as int),
        decreases s.len() - i,
    {
        out.push(s[i]);
        proof {
            assert(old(out)@ + s@.subrange(0, i + 1) =~= (old(out)@ + s@.subrange(
                0,
                i as int,
            )).push(s@[i as int]));
        }
        i += 1;
    }
    proof {
        assert(s@.subrange(0, s@.len() as int) =~= s@);
    }
}

/// Executable equality of two character vectors, as sequence equality.
pub fn chars_eq(a: &Vec<char>, b: &Vec<char>) -> (r: bool)
    ensures
        r == (a@ == b@),
{
    if a.len() != b.len() {
        return false;
    }
    let r = matches_at_exec(a, b, 0);
    proof {
        if r {
            assert(a@ =~= b@);
        }
    }
    r
}

/// Every character of `s` is a decimal digit.
pub open spec fn all_digits(s: Seq<char>) -> bool {
    forall|i: int| 0 <= i < s.len() ==> is_digit(s[i])
}

/// The value of a sequence of decimal digits.
pub open spec fn digits_val(s: Seq<char>) -> int
    decreases s.len(),
{
    if s.len() == 0 {
        0
    } else {
        digits_val(s.drop_last()) * 10 + (s.last() as int - '0' as int)
    }
}

proof fn lemma_digits_val_nonneg(s: Seq<char>)
    requires
        all_digits(s),
    ensures
        digits_val(s) >= 0,
    decreases s.len(),
{
    if s.len() > 0 {
        assert(all_digits(s.drop_last()));
        lemma_digits_val_nonneg(s.drop_last());
    }
}

proof fn lemma_digits_val_prefix_le(s: Seq<char>, k: int)
    requires
        all_digits(s),
        0 <= k <= s.len(),
    ensures
        digits_val(s) >= digits_val(s.subrange(0, k)),
    decreases s.len() - k,
{
    if k == s.len() {
        assert(s.subrange(0, k) =~= s);
    } else {
        let t = s.drop_last();
        assert(all_digits(t));
        if k == s.len() - 1 {
            assert(s.subrange(0, k) =~= t);
            lemma_digits_val_nonneg(t);
        } else {
            lemma_digits_val_prefix_le(t, k);
            assert(t.subrange(0, k) =~= s.subrange(0, k));
            lemma_digits_val_nonneg(t);
        }
    }
}

/// A token with an optional leading `+` stripped.
pub open spec fn unsigned_part(s: Seq<char>) -> Seq<char> {
    if s.len() > 0 && s[0] == '+' {
        s.drop_first()
    } else {
        s
    }
}

/// How `u32` parsing reads a token: an optional leading `+`, then at least
/// one decimal digit, with a value that fits in a `u32`.
pub open spec fn spec_parse_u32(s: Seq<char>) -> Option<u32> {
    let d = unsigned_part(s);
    if d.len() > 0 && all_digits(d) && digits_val(d) <= u32::MAX {
        Some(digits_val(d) as u32)
    } else {
        None
    }
}

/// Executable decimal parsing, mirroring how `u32::from_str` reads a token.
pub fn parse_u32(s: &Vec<char>) -> (r: Option<u32>)
    ensures
        r == spec_parse_u32(s@),
{
    let start: usize = if s.len() > 0 && s[0] == '+' {
        1
    } else {
        0
    };
    let ghost d = unsigned_part(s@);
    proof {
        assert(d =~= s@.subrange(start as int, s@.len() as int));
    }
    if s.len() == start {
        return None;
    }
    let mut acc: u64 = 0;
    let mut i: usize = start;
    while i < s.len()
        invariant
            start <= i <= s.len(),
            d == unsigned_part(s@),
            d == s@.subrange(start as int, s@.len() as int),
            acc <= u32::MAX,
            all_digits(d.subrange(0, i - start)),
            acc as int == digits_val(d.subrange(0, i - start)),
        decreases s.len() - i,
    {
        let c = s[i];
        proof {
            assert(d[i - start] == s@[i as int]);
        }
        if !digit_char(c) {
            proof {
                assert(0 <= i - start < d.len());
                assert(!is_digit(d[i - start]));
                assert(!all_digits(d));
            }
            return None;
        }
        acc = acc * 10 + ((c as u32 - '0' as u32) as u64);
        proof {
            let p = d.subrange(0, i - start);
            let q = d.subrange(0, i + 1 - start);
            assert(q.drop_last() =~= p);
            assert(q.last() == c);
        }
        if acc > 0xffff_ffff {
            proof {
                let q = d.subrange(0, i + 1 - start);
                assert(q.drop_last() =~= d.subrange(0, i - start));
                assert(q.last() == c);
                assert(acc as int == digits_val(q));
                if all_digits(d) && digits_val(d) <= u32::MAX {
                    lemma_digits_val_prefix_le(d, i + 1 - start);
                    assert(digits_val(d) >= digits_val(q));
                    assert(false);
                }
            }
            return None;
        }
        i += 1;
    }
    proof {
        assert(d.subrange(0, d.len() as int) =~= d);
    }
    Some(acc as u32)
}

/// A token that parses as a four-digit year number.
pub open spec fn is_year_str(t: Seq<char>) -> bool {
    match spec_parse_u32(t) {
        Some(v) => 1000 <= v <= 9999,
        None => false,
    }
}

/// `s[i..j]` is a maximal whitespace-delimited token of `s`.
pub open spec fn is_token_at(s: Seq<char>, i: int, j: int) -> bool {
    &&& 0 <= i < j <= s.len()
    &&& (i == 0 || is_wspace(s[i - 1]))
    &&& (j == s.len() || is_wspace(s[j]))
    &&& forall|k: int| i <= k < j ==> !is_wspace(s[k])
}

/// Some whitespace-delimited token of `s` parses as a year in `[1000, 9999]`.
pub open spec fn has_year_token(s: Seq<char>) -> bool {
    exists|i: int, j: int| is_token_at(s, i, j) && is_year_str(s.subrange(i, j))
}

/// Executable search for a year token.
pub fn has_year_token_exec(s: &Vec<char>) -> (r: bool)
    ensures
        r == has_year_token(s@),
{
    let mut p: usize = 0;
    while p < s.len()
        invariant
            p <= s.len(),
            p == 0 || p == s.len() || is_wspace(s@[p - 1]) || is_wspace(s@[p as int]),
            forall|i: int, j: int|
                is_token_at(s@, i, j) && j <= p ==> !is_year_str(s@.subrange(i, j)),
        decreases s.len() - p,
    {
        if wspace_char(s[p]) {
            proof {
                assert(forall|i: int, j: int|
                    is_token_at(s@, i, j) && j <= p + 1 ==> j <= p);
            }
            p += 1;
        } else {
            let a = p;
            let mut b = p + 1;
            while b < s.len() && !wspace_char(s[b])
                invariant
                    a < b <= s.len(),
                    forall|k: int| a <= k < b ==> !is_wspace(s@[k]),
                decreases s.len() - b,
            {
                b += 1;
            }
            proof {
                if b < s@.len() {
                    assert(is_wspace(s@[b as int]));
                }
                assert(is_token_at(s@, a as int, b as int));
            }
            let tok = subvec(s, a, b);
            if let Some(v) = parse_u32(&tok) {
                if 1000 <= v && v <= 9999 {
                    proof {
                        assert(is_year_str(s@.subrange(a as int, b as int)));
                    }
                    return true;
                }
            }
            proof {
                assert forall|i: int, j: int|
                    is_token_at(s@, i, j) && j <= b implies !is_year_str(
                    s@.subrange(i, j),
                ) by {
                    if j > a {
                        // a token ending inside or at the end of this run
                        // must be exactly the run itself
                        if j < b {
                            assert(!is_wspace(s@[j]));
                            assert(false);
                        } else {
                            if i > a {
                                assert(!is_wspace(s@[i - 1]));
                                assert(false);
                            }
                            if i < a {
                                assert(a > 0 ==> is_wspace(s@[a - 1]));
                                if a == 0 {
                                    assert(i < 0);
                                    assert(false);
                                } else {
                                    assert(i <= a - 1 < j);
                                    assert(!is_wspace(s@[a - 1]));
                                    assert(false);
                                }
                            }
                            assert(i == a && j == b);
                        }
                    }
                }
            }
            p = b;
        }
    }
    false
}

/// The character that writes the decimal digit `d`.
pub open spec fn dec_digit_char(d: int) -> char {
    if d == 0 {
        '0'
    } else if d == 1 {
        '1'
    } else if d == 2 {
        '2'
    } else if d == 3 {
        '3'
    } else if d == 4 {
        '4'
    } else if d == 5 {
        '5'
    } else if d == 6 {
        '6'
    } else if d == 7 {
        '7'
    } else if d == 8 {
        '8'
    } else {
        '9'
    }
}

/// The decimal writing of a nonnegative number.
pub open spec fn dec_rep(n: int) -> Seq<char>
    decreases n,
{
    if n <= 9 {
        seq![dec_digit_char(n)]
    } else {
        dec_rep(n / 10) + seq![dec_digit_char(n % 10)]
    }
}

/// The decimal writing of a number, with a sign when negative.
pub open spec fn int_rep(n: int) -> Seq<char> {
    if n < 0 {
        seq!['-'] + dec_rep(-n)
    } else {
        dec_rep(n)
    }
}

fn dec_digit_exec(d: u64) -> (c: char)
    requires
        d <= 9,
    ensures
        c == dec_digit_char(d as int),
{
    if d == 0 {
        '0'
    } else if d == 1 {
        '1'
    } else if d == 2 {
        '2'
    } else if d == 3 {
        '3'
    } else if d == 4 {
        '4'
    } else if d == 5 {
        '5'
    } else if d == 6 {
        '6'
    } else if d == 7 {
        '7'
    } else if d == 8 {
        '8'
    } else {
        '9'
    }
}

/// Appends the decimal writing of `n` to `out`.
pub fn push_u64_dec(out: &mut Vec<char>, n: u64)
    ensures
        final(out)@ == old(out)@ + dec_rep(n as int),
    decreases n,
{
    if n <= 9 {
        out.push(dec_digit_exec(n));
        proof {
            assert(old(out)@ + dec_rep(n as int) =~= old(out)@.push(dec_digit_char(n as int)));
        }
    } else {
        push_u64_dec(out, n / 10);
        out.push(dec_digit_exec(n % 10));
        proof {
            assert(old(out)@ + dec_rep(n as int) =~= (old(out)@ + dec_rep(n as int / 10)).push(
                dec_digit_char(n as int % 10),
            ));
        }
    }
}

/// Appends the decimal writing of `n`, with a sign when negative, to `out`.
pub fn push_i64_dec(out: &mut Vec<char>, n: i64)
    ensures
        final(out)@ == old(out)@ + int_rep(n as int),
{
    if n >= 0 {
        push_u64_dec(out, n as u64);
    } else {
        out.push('-');
        let m: u64 = ((-(n + 1)) as u64) + 1;
        proof {
            assert(m as int == -(n as int));
        }
        push_u64_dec(out, m);
        proof {
            assert(old(out)@ + int_rep(n as int) =~= old(out)@.push('-') + dec_rep(m as int));
        }
    }
}

/// Collapse of character runs: every maximal run of two or more `c`
/// becomes a single `c`. A character is kept unless the next one repeats
/// it, which keeps exactly the last of each run.
pub open spec fn collapse_runs(s: Seq<char>, c: char) -> Seq<char>
    decreases s.len(),
{
    if s.len() == 0 {
        seq![]
    } else if s.len() >= 2 && s[0] == c && s[1] == c {
        collapse_runs(s.drop_first(), c)
    } else {
        seq![s[0]] + collapse_runs(s.drop_first(), c)
    }
}

/// Executable collapse of character runs, in one left-to-right pass.
pub fn collapse_runs_exec(s: &Vec<char>, c: char) -> (r: Vec<char>)
    ensures
        r@ == collapse_runs(s@, c),
{
    let mut out: Vec<char> = Vec::new();
    let mut i: usize = 0;
    proof {
        assert(s@.skip(0) =~= s@);
        assert(Seq::<char>::empty() + collapse_runs(s@, c) =~= collapse_runs(s@, c));
    }
    while i < s.len()
        invariant
            i <= s.len(),
            collapse_runs(s@, c) == out@ + collapse_runs(s@.skip(i as int), c),
        decreases s.len() - i,
    {
        let ghost rest = s@.skip(i as int);
        proof {
            assert(rest[0] == s@[i as int]);
            if rest.len() >= 2 {
                assert(rest[1] == s@[i + 1]);
            }
            assert(rest.drop_first() =~= s@.skip(i + 1));
        }
        if !(s[i] == c && i + 1 < s.len() && s[i + 1] == c) {
            let ghost prev = out@;
            out.push(s[i]);
            proof {
                assert(prev + (seq![s@[i as int]] + collapse_runs(s@.skip(i + 1), c)) =~= out@
                    + collapse_runs(s@.skip(i + 1), c));
            }
        }
        i += 1;
    }
    proof {
        assert(s@.skip(s@.len() as int) =~= Seq::<char>::empty());
        assert(out@ + Seq::<char>::empty() =~= out@);
    }
    out
}

/// Replacement of every non-overlapping occurrence of `pat` by `rep`,
/// scanning left to right.
pub open spec fn replace_seq(s: Seq<char>, pat: Seq<char>, rep: Seq<char>) -> Seq<char>
    decreases s.len(),
{
    if pat.len() == 0 || s.len() < pat.len() {
        s
    } else if matches_at(s, pat, 0) {
        rep + replace_seq(s.skip(pat.len() as int), pat, rep)
    } else {
        s.take(1) + replace_seq(s.skip(1), pat, rep)
    }
}

/// Executable replacement of every occurrence of `pat` by `rep`.
pub fn replace_all(s: &Vec<char>, pat: &Vec<char>, rep: &Vec<char>) -> (r: Vec<char>)
    requires
        pat@.len() > 0,
    ensures
        r@ == replace_seq(s@, pat@, rep@),
{
    let mut out: Vec<char> = Vec::new();
    let mut p: usize = 0;
    proof {
        assert(s@.skip(0) =~= s@);
        assert(Seq::<char>::empty() + replace_seq(s@, pat@, rep@) =~= replace_seq(
            s@,
            pat@,
            rep@,
        ));
    }
    while p < s.len()
        invariant
            p <= s.len(),
            pat@.len() > 0,
            replace_seq(s@, pat@, rep@) == out@ + replace_seq(
                s@.skip(p as int),
                pat@,
                rep@,
            ),
        decreases s.len() - p,
    {
        let ghost rest = s@.skip(p as int);
        if matches_at_exec(s, pat, p) {
            proof {
                assert(matches_at(rest, pat@, 0)) by {
                    assert(forall|j: int|
                        0 <= j < pat@.len() ==> rest[j] == s@[p + j]);
                }
                assert(rest.skip(pat@.len() as int) =~= s@.skip(p + pat@.len()));
            }
            push_all(&mut out, rep);
            p += pat.len();
        } else {
            proof {
                if rest.len() >= pat@.len() {
                    assert(!matches_at(rest, pat@, 0)) by {
                        if matches_at(rest, pat@, 0) {
                            assert(forall|j: int|
                                0 <= j < pat@.len() ==> s@[p + j] == rest[j]);
                        }
                    }
                    assert(rest.take(1) =~= seq![s@[p as int]]);
                    assert(rest.skip(1) =~= s@.skip(p + 1));
                } else {
                    // the remaining tail is shorter than the pattern: it is
                    // copied through unchanged, one character at a time
                    assert(replace_seq(rest, pat@, rep@) == rest);
                    assert(s@.skip(p + 1).len() < pat@.len());
                    assert(replace_seq(s@.skip(p + 1), pat@, rep@) == s@.skip(p + 1));
                    assert(rest =~= seq![s@[p as int]] + s@.skip(p + 1));
                }
            }
            let c = s[p];
            out.push(c);
            p += 1;
        }
        proof {
            assert(replace_seq(s@, pat@, rep@) == out@ + replace_seq(
                s@.skip(p as int),
                pat@,
                rep@,
            )) by {
                assert(out@ + (replace_seq(s@.skip(p as int), pat@, rep@)) =~= out@
                    + replace_seq(s@.skip(p as int), pat@, rep@));
            }
        }
    }
    proof {
        assert(s@.skip(s@.len() as int) =~= Seq::<char>::empty());
        assert(replace_seq(Seq::<char>::empty(), pat@, rep@) == Seq::<char>::empty());
        assert(out@ + Seq::<char>::empty() =~= out@);
    }
    out
}

} // verus!
