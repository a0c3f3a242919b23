//! The citation extractor: finds citation markers inside document text.
//!
//! A marker is a parenthesized span on one physical line. Its content either
//! starts with `@` (an explicit key, optionally followed by a comma and a
//! page locator) or starts with a capital letter and carries a digit run
//! followed by a comma or the closing parenthesis (an author-year phrase,
//! optionally with a locator). A leading `see ` is stripped. Malformed
//! spans, including ones whose parentheses sit on different lines, yield
//! nothing.

use vstd::prelude::*;

use crate::text::{
    chars_to_string, is_digit, is_upper, is_wspace, str_to_chars, subvec, trim, trim_exec,
    upper_char, wspace_char,
};

verus! {

/// Position of the first closing parenthesis at or after `j`, stopping at
/// the end of the physical line: a marker never spans lines.
pub open spec fn close_pos(s: Seq<char>, j: int) -> Option<int>
    decreases s.len() - j,
{
    if j < 0 || j >= s.len() {
        None
    } else if s[j] == ')' {
        Some(j)
    } else if s[j] == '\n' {
        None
    } else {
        close_pos(s, j + 1)
    }
}

proof fn lemma_close_pos_bounds(s: Seq<char>, j: int)
    requires
        close_pos(s, j) is Some,
    ensures
        j <= close_pos(s, j)->0 < s.len(),
        s[close_pos(s, j)->0] == ')',
        forall|k: int| j <= k < close_pos(s, j)->0 ==> s[k] != ')' && s[k] != '\n',
    decreases s.len() - j,
{
    if 0 <= j < s.len() && s[j] != ')' && s[j] != '\n' {
        lemma_close_pos_bounds(s, j + 1);
    }
}

/// Executable search for [`close_pos`].
fn close_pos_exec(s: &Vec<char>, j: usize) -> (r: Option<usize>)
    ensures
        match r {
            Some(c) => close_pos(s@, j as int) == Some(c as int) && j <= c < s@.len(),
            None => close_pos(s@, j as int) is None,
        },
{
    let mut i: usize = j;
    while i < s.len()
        invariant
            j <= i,
            close_pos(s@, j as int) == close_pos(s@, i as int),
        decreases s.len() - i,
    {
        if s[i] == ')' {
            return Some(i);
        }
        if s[i] == '\n' {
            return None;
        }
        i += 1;
    }
    None
}

/// End of the run of explicit-key characters at or after `i`: the first
/// index holding a parenthesis, a comma or whitespace.
pub open spec fn key_run_end(t: Seq<char>, i: int) -> int
    decreases t.len() - i,
{
    if i < 0 || i >= t.len() {
        t.len() as int
    } else if t[i] == '(' || t[i] == ')' || t[i] == ',' || is_wspace(t[i]) {
        i
    } else {
        key_run_end(t, i + 1)
    }
}

/// Content of an explicit-key marker: `@`, a nonempty run of key
/// characters, then either the end or a comma and free detail. (Content
/// never holds a closing parenthesis: it ends at the first one.)
pub open spec fn key_content(t: Seq<char>) -> bool {
    &&& t.len() >= 2
    &&& t[0] == '@'
    &&& key_run_end(t, 1) > 1
    &&& (key_run_end(t, 1) == t.len() || t[key_run_end(t, 1)] == ',')
}

/// A digit run `t[d1..d2]` that closes an author-year marker: it is
/// followed by a comma or the end, and no opening parenthesis precedes it.
pub open spec fn author_digit_split(t: Seq<char>, d1: int, d2: int) -> bool {
    &&& 1 <= d1 < d2 <= t.len()
    &&& (forall|k: int| d1 <= k < d2 ==> is_digit(t[k]))
    &&& (d2 == t.len() || t[d2] == ',')
    &&& (forall|k: int| 1 <= k < d1 ==> t[k] != '(')
}

/// Content of an author-year marker: a capitalized start and a closing
/// digit run.
pub open spec fn author_content(t: Seq<char>) -> bool {
    &&& t.len() > 0
    &&& is_upper(t[0])
    &&& exists|d1: int, d2: int| author_digit_split(t, d1, d2)
}

/// Content of a citation marker, of either form.
pub open spec fn content_matches(t: Seq<char>) -> bool {
    key_content(t) || author_content(t)
}

/// Executable test for [`key_content`].
fn key_content_exec(t: &Vec<char>) -> (r: bool)
    ensures
        r == key_content(t@),
{
    if t.len() < 2 {
        return false;
    }
    if t[0] != '@' {
        return false;
    }
    let mut k: usize = 1;
    while k < t.len() && !(t[k] == '(' || t[k] == ')' || t[k] == ',' || wspace_char(t[k]))
        invariant
            1 <= k <= t.len(),
            key_run_end(t@, 1) == key_run_end(t@, k as int),
        decreases t.len() - k,
    {
        k += 1;
    }
    proof {
        assert(key_run_end(t@, k as int) == k as int || k == t@.len());
    }
    if k == 1 {
        return false;
    }
    if k == t.len() {
        return true;
    }
    t[k] == ','
}

/// Executable test for [`author_content`].
fn author_content_exec(t: &Vec<char>) -> (r: bool)
    ensures
        r == author_content(t@),
{
    if t.len() == 0 || !upper_char(t[0]) {
        return false;
    }
    let mut k: usize = 1;
    while k < t.len()
        invariant
            1 <= k <= t.len(),
            t@.len() > 0 && is_upper(t@[0]),
            forall|m: int| 1 <= m < k ==> t@[m] != '(',
            forall|d1: int, d2: int| 1 <= d1 < k ==> !author_digit_split(t@, d1, d2),
        decreases t.len() - k,
    {
        if t[k] == '(' {
            proof {
                assert forall|d1: int, d2: int| !author_digit_split(t@, d1, d2) by {
                    if author_digit_split(t@, d1, d2) {
                        assert(1 <= d1 < k || d1 >= k);
                        if d1 >= k {
                            if d1 == k {
                                assert(is_digit(t@[d1]));
                            } else {
                                assert(t@[k as int] != '(');
                            }
                        }
                    }
                }
            }
            return false;
        }
        if crate::text::digit_char(t[k]) {
            let d1 = k;
            let mut e: usize = k + 1;
            while e < t.len() && crate::text::digit_char(t[e])
                invariant
                    d1 < e <= t.len(),
                    forall|m: int| d1 <= m < e ==> is_digit(t@[m]),
                decreases t.len() - e,
            {
                e += 1;
            }
            if e == t.len() || t[e] == ',' {
                proof {
                    assert(author_digit_split(t@, d1 as int, e as int));
                }
                return true;
            }
            proof {
                assert(!is_digit(t@[e as int]) && t@[e as int] != ',' && e < t@.len());
                assert forall|d1x: int, d2x: int| 1 <= d1x < e implies !author_digit_split(
                    t@,
                    d1x,
                    d2x,
                ) by {
                    if author_digit_split(t@, d1x, d2x) && d1x >= d1 {
                        // the run t[d1x..d2x] lies inside the maximal run
                        // ending at e, so d2x can close nothing
                        if d2x > e {
                            assert(is_digit(t@[e as int]));
                        } else if d2x < e {
                            assert(is_digit(t@[d2x]));
                            assert(d2x != t@.len() && t@[d2x] != ',');
                        } else {
                            assert(d2x == t@.len() || t@[d2x] == ',');
                        }
                    }
                }
            }
            k = e;
        } else {
            proof {
                assert forall|d2x: int| !author_digit_split(t@, k as int, d2x) by {
                    if author_digit_split(t@, k as int, d2x) {
                        assert(is_digit(t@[k as int]));
                    }
                }
            }
            k += 1;
        }
    }
    proof {
        assert forall|d1: int, d2: int| !author_digit_split(t@, d1, d2) by {
            if author_digit_split(t@, d1, d2) {
                assert(1 <= d1 < d2 <= t@.len());
                assert(d1 < k);
            }
        }
    }
    false
}

/// The marker standing at the opening parenthesis at `p`, if any: its
/// content (between the parentheses, after an optional `see `) and the
/// position just past the closing parenthesis.
pub open spec fn marker_at(s: Seq<char>, p: int) -> Option<(Seq<char>, int)> {
    let j0 = p + 1;
    let j = if j0 + 3 < s.len() && s[j0] == 's' && s[j0 + 1] == 'e' && s[j0 + 2] == 'e'
        && is_wspace(s[j0 + 3]) && s[j0 + 3] != '\n' {
        j0 + 4
    } else {
        j0
    };
    match close_pos(s, j) {
        Some(c) => {
            let content = s.subrange(j, c);
            if content_matches(content) {
                Some((content, c + 1))
            } else {
                None
            }
        },
        None => None,
    }
}

/// Executable computation of [`marker_at`].
fn marker_at_exec(s: &Vec<char>, p: usize) -> (r: Option<(Vec<char>, usize)>)
    requires
        p < s.len(),
    ensures
        match r {
            Some(pair) => {
                &&& marker_at(s@, p as int) == Some((pair.0@, pair.1 as int))
                &&& p < pair.1 <= s@.len()
            },
            None => marker_at(s@, p as int) is None,
        },
{
    let j0 = p + 1;
    let j: usize = if s.len() - p > 4 && s[j0] == 's' && s[j0 + 1] == 'e' && s[j0 + 2] == 'e'
        && wspace_char(s[j0 + 3]) && s[j0 + 3] != '\n' {
        j0 + 4
    } else {
        j0
    };
    match close_pos_exec(s, j) {
        Some(c) => {
            let content = subvec(s, j, c);
            if key_content_exec(&content) || author_content_exec(&content) {
                Some((content, c + 1))
            } else {
                None
            }
        },
        None => None,
    }
}

/// All citation contents found scanning from position `p`, in document
/// order: at each opening parenthesis carrying a marker, its trimmed
/// content is taken and the scan resumes past the closing parenthesis.
pub open spec fn scan_from(s: Seq<char>, p: int) -> Seq<Seq<char>>
    decreases s.len() - p,
    when p >= 0
    via scan_from_decreases
{
    if p < 0 || p >= s.len() {
        seq![]
    } else if s[p] == '(' {
        match marker_at(s, p) {
            Some(pair) => seq![trim(pair.0)] + scan_from(s, pair.1),
            None => scan_from(s, p + 1),
        }
    } else {
        scan_from(s, p + 1)
    }
}

#[via_fn]
proof fn scan_from_decreases(s: Seq<char>, p: int) {
    if 0 <= p < s.len() && s[p] == '(' {
        let j0 = p + 1;
        let j = if j0 + 3 < s.len() && s[j0] == 's' && s[j0 + 1] == 'e' && s[j0 + 2] == 'e'
            && is_wspace(s[j0 + 3]) && s[j0 + 3] != '\n' {
            j0 + 4
        } else {
            j0
        };
        if close_pos(s, j) is Some {
            lemma_close_pos_bounds(s, j);
        }
    }
}

/// The citations extracted from a whole text, in document order.
pub open spec fn extracted_citations(text: Seq<char>) -> Seq<Seq<char>> {
    scan_from(text, 0)
}

/// Executable scan of a whole text.
fn scan_citations(s: &Vec<char>) -> (r: Vec<Vec<char>>)
    ensures
        r.deep_view() == scan_from(s@, 0),
{
    let mut out: Vec<Vec<char>> = Vec::new();
    let mut p: usize = 0;
    proof {
        assert(out.deep_view() =~= Seq::<Seq<char>>::empty());
        assert(Seq::<Seq<char>>::empty() + scan_from(s@, 0) =~= scan_from(s@, 0));
    }
    while p < s.len()
        invariant
            p <= s.len(),
            scan_from(s@, 0) == out.deep_view() + scan_from(s@, p as int),
        decreases s.len() - p,
    {
        if s[p] == '(' {
            match marker_at_exec(s, p) {
                Some(pair) => {
                    let cit = trim_exec(&pair.0);
                    let ghost prev = out.deep_view();
                    out.push(cit);
                    proof {
                        assert(out.deep_view() =~~= prev.push(cit@));
                        assert(prev.push(trim(pair.0@)) + scan_from(s@, pair.1 as int) =~= prev + (
                        seq![trim(pair.0@)] + scan_from(s@, pair.1 as int)));
                    }
                    p = pair.1;
                },
                None => {
                    p += 1;
                },
            }
        } else {
            p += 1;
        }
    }
    proof {
        assert(out.deep_view() + scan_from(s@, p as int) =~= out.deep_view());
    }
    out
}

proof fn lemma_close_pos_exact(s: Seq<char>, j: int, c: int)
    requires
        0 <= j <= c < s.len(),
        s[c] == ')',
        forall|k: int| j <= k < c ==> s[k] != ')' && s[k] != '\n',
    ensures
        close_pos(s, j) == Some(c),
    decreases c - j,
{
    if j < c {
        lemma_close_pos_exact(s, j + 1, c);
    }
}

/// A well-formed author-year marker `(Surname YYYY)` yields exactly the
/// citation `Surname YYYY`, and the scan resumes right after its closing
/// parenthesis, so citations come out in document order.
pub proof fn lemma_author_year_marker(s: Seq<char>, p: int, surname: Seq<char>, year: Seq<char>)
    requires
        0 <= p < s.len(),
        s[p] == '(',
        surname.len() > 0,
        is_upper(surname[0]),
        forall|k: int|
            0 <= k < surname.len() ==> surname[k] != '(' && surname[k] != ')' && surname[k]
                != '\n',
        year.len() > 0,
        forall|k: int| 0 <= k < year.len() ==> is_digit(year[k]),
        p + surname.len() + year.len() + 3 <= s.len(),
        s.subrange(p + 1, p + 1 + surname.len() as int) == surname,
        s[p + 1 + surname.len()] == ' ',
        s.subrange(
            p + 2 + surname.len() as int,
            p + 2 + surname.len() + year.len(),
        ) == year,
        s[p + 2 + surname.len() + year.len()] == ')',
    ensures
        scan_from(s, p) == seq![surname + seq![' '] + year] + scan_from(
            s,
            p + surname.len() + year.len() + 3,
        ),
{
    let j = p + 1;
    let c = p + 2 + surname.len() + year.len();
    assert(s[j] == surname[0]);
    assert(s[j] != 's');
    assert forall|k: int| j <= k < c implies s[k] != ')' && s[k] != '\n' by {
        if k < j + surname.len() {
            assert(s[k] == surname[k - j]);
        } else if k == j + surname.len() {
            assert(s[k] == ' ');
        } else {
            assert(s[k] == year[k - (j + surname.len() + 1)]);
            assert(is_digit(s[k]));
        }
    }
    lemma_close_pos_exact(s, j, c);
    let content = s.subrange(j, c);
    assert(content =~= surname + seq![' '] + year);
    assert(author_digit_split(content, surname.len() + 1 as int, content.len() as int)) by {
        assert(forall|k: int|
            surname.len() + 1 <= k < content.len() ==> is_digit(
                #[trigger] content[k],
            ));
        assert(forall|k: int| 1 <= k < surname.len() + 1 ==> #[trigger] content[k] != '(');
    }
    assert(author_content(content));
    assert(marker_at(s, p) == Some((content, c + 1)));
    assert(trim(content) == content) by {
        assert(!is_wspace(content[0]));
        crate::text::lemma_trim_start_nonws(content);
        assert(content.last() == year.last());
        assert(!is_wspace(content.last()));
    }
    assert(scan_from(s, p) == seq![trim(content)] + scan_from(s, c + 1));
}

/// A well-formed author-year marker with a locator,
/// `(Surname YYYY, locator)`, yields the citation `Surname YYYY, locator`
/// (whitespace-trimmed), and cutting that citation at its first comma —
/// what the de-duplication stage does before matching — leaves exactly
/// `Surname YYYY`: the locator never takes part in matching.
pub proof fn lemma_author_year_marker_with_locator(
    s: Seq<char>,
    p: int,
    surname: Seq<char>,
    year: Seq<char>,
    locator: Seq<char>,
)
    requires
        0 <= p < s.len(),
        s[p] == '(',
        surname.len() > 0,
        is_upper(surname[0]),
        forall|k: int|
            0 <= k < surname.len() ==> surname[k] != '(' && surname[k] != ')' && surname[k]
                != '\n' && surname[k] != ',',
        year.len() > 0,
        forall|k: int| 0 <= k < year.len() ==> is_digit(year[k]),
        forall|k: int| 0 <= k < locator.len() ==> locator[k] != ')' && locator[k] != '\n',
        p + surname.len() + year.len() + locator.len() + 4 <= s.len(),
        s.subrange(p + 1, p + 1 + surname.len() as int) == surname,
        s[p + 1 + surname.len()] == ' ',
        s.subrange(
            p + 2 + surname.len() as int,
            p + 2 + surname.len() + year.len(),
        ) == year,
        s[p + 2 + surname.len() + year.len()] == ',',
        s.subrange(
            p + 3 + surname.len() + year.len(),
            p + 3 + surname.len() + year.len() + locator.len(),
        ) == locator,
        s[p + 3 + surname.len() + year.len() + locator.len()] == ')',
    ensures
        scan_from(s, p) == seq![
            trim(surname + seq![' '] + year + seq![','] + locator),
        ] + scan_from(s, p + surname.len() + year.len() + locator.len() + 4),
        crate::text::before_char(
            trim(surname + seq![' '] + year + seq![','] + locator),
            ',',
        ) == surname + seq![' '] + year,
{
    let j = p + 1;
    let q = surname.len() + 1 + year.len() as int;
    let c = j + q + 1 + locator.len();
    assert(s[j] == surname[0]);
    assert(s[j] != 's');
    assert forall|k: int| j <= k < c implies s[k] != ')' && s[k] != '\n' by {
        if k < j + surname.len() {
            assert(s[k] == surname[k - j]);
        } else if k == j + surname.len() {
            assert(s[k] == ' ');
        } else if k < j + q {
            assert(s[k] == year[k - (j + surname.len() + 1)]);
            assert(is_digit(s[k]));
        } else if k == j + q {
            assert(s[k] == ',');
        } else {
            assert(s[k] == locator[k - (j + q + 1)]);
        }
    }
    lemma_close_pos_exact(s, j, c);
    let content = s.subrange(j, c);
    assert(content =~= surname + seq![' '] + year + seq![','] + locator);
    assert(author_digit_split(content, surname.len() + 1 as int, q)) by {
        assert(forall|k: int|
            surname.len() + 1 <= k < q ==> is_digit(#[trigger] content[k]));
        assert(forall|k: int| 1 <= k < surname.len() + 1 ==> #[trigger] content[k] != '(');
    }
    assert(author_content(content));
    assert(marker_at(s, p) == Some((content, c + 1)));
    assert(scan_from(s, p) == seq![trim(content)] + scan_from(s, c + 1));
    // the citation keeps the surname-year part intact before its comma
    assert(!is_wspace(content[0]));
    crate::text::lemma_trim_start_nonws(content);
    assert(content[q] == ',');
    assert(!is_wspace(content[q]));
    crate::text::lemma_trim_end_keeps_prefix(content, q);
    let trimmed = trim(content);
    assert(trimmed.len() > q);
    assert(forall|k: int| 0 <= k < trimmed.len() ==> trimmed[k] == content[k]);
    assert forall|k: int| 0 <= k < q implies trimmed[k] != ',' by {
        if k < surname.len() {
            assert(content[k] == surname[k]);
        } else if k == surname.len() {
            assert(content[k] == ' ');
        } else {
            assert(content[k] == year[k - surname.len() - 1]);
            assert(is_digit(content[k]));
        }
    }
    crate::text::lemma_find_char_exact(trimmed, ',', 0, q);
    assert(crate::text::before_char(trimmed, ',') =~= surname + seq![' '] + year);
}

/// A marker whose parentheses do not close on one physical line — an
/// unbalanced opening parenthesis, or a closing one only on a later line —
/// yields no citation: the scan passes over the opening parenthesis.
pub proof fn lemma_unclosed_marker_skipped(s: Seq<char>, p: int)
    requires
        0 <= p < s.len(),
        s[p] == '(',
        forall|k: int|
            p < k < s.len() && s[k] == ')' ==> exists|m: int| p < m < k && #[trigger] s[m] == '\n',
    ensures
        scan_from(s, p) == scan_from(s, p + 1),
{
    let j0 = p + 1;
    let stripped = j0 + 3 < s.len() && s[j0] == 's' && s[j0 + 1] == 'e' && s[j0 + 2] == 'e'
        && is_wspace(s[j0 + 3]) && s[j0 + 3] != '\n';
    let j = if stripped {
        j0 + 4
    } else {
        j0
    };
    if close_pos(s, j) is Some {
        let c = close_pos(s, j)->0;
        lemma_close_pos_bounds(s, j);
        assert(s[c] == ')');
        assert(p < c < s.len());
        let m = choose|m: int| p < m < c && #[trigger] s[m] == '\n';
        if m >= j {
            assert(s[m] != '\n');
        } else {
            assert(stripped);
            assert(m == j0 || m == j0 + 1 || m == j0 + 2 || m == j0 + 3);
            assert(s[m] != '\n');
        }
        assert(false);
    }
    assert(marker_at(s, p) is None);
}

/// Extracts the citations of a document body, in document order. Each
/// returned string is a marker's trimmed content: an explicit key such as
/// `@key2000, 12` or an author-year phrase such as `Surname 2000, 12`,
/// with any leading `see ` stripped.
pub fn extract_citations_from_markdown(markdown: &String) -> (r: Vec<String>)
    ensures
        r.deep_view() == extracted_citations(markdown@),
{
    let chars = str_to_chars(markdown.as_str());
    let found = scan_citations(&chars);
    let mut out: Vec<String> = Vec::new();
    let mut i: usize = 0;
    while i < found.len()
        invariant
            i <= found.len(),
            out.deep_view() == found.deep_view().subrange(0, i as int),
        decreases found.len() - i,
    {
        let ghost prev = out.deep_view();
        out.push(chars_to_string(&found[i]));
        proof {
            assert(out.deep_view() =~~= prev.push(found@[i as int]@));
            assert(found.deep_view().subrange(0, i + 1) =~= found.deep_view().subrange(
                0,
                i as int,
            ).push(found.deep_view()[i as int]));
            assert(found.deep_view()[i as int] =~= found@[i as int]@);
        }
        i += 1;
    }
    proof {
        assert(found.deep_view().subrange(0, found.deep_view().len() as int) =~= found.deep_view());
    }
    out
}

} // verus!
