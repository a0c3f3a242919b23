//! The disambiguation engine and the citation-style renderer.
//!
//! Matched citations are grouped by the pair (primary author's surname,
//! year). A group holding more than one distinct entry gets deterministic
//! letter suffixes, assigned in ascending entry-key order starting at `a`;
//! a group of one keeps its bare year. Rendering turns each disambiguated
//! citation into one bibliography line, with entry-type-specific field
//! ordering.

use vstd::prelude::*;

use crate::bibliography::{DateValue, Entry, EntryV, PermissiveType, surname_of_entry,
    year_of_entry};
use crate::text::{
    chars_eq, chars_to_string, int_rep, lex_lt, lex_lt_exec, push_all, push_i64_dec, str_to_chars,
};
use crate::validators::{
    MatchedCitation, MatchedCitationDisambiguated, MatchedCitationDisambiguatedV, MatchedCitationV,
};

verus! {

/// The grouping identity of a matched entry: its primary author's surname
/// and its year, when it has both. An entry lacking either stands alone.
pub open spec fn group_key(e: EntryV) -> Option<(Seq<char>, int)> {
    match (surname_of_entry(e), year_of_entry(e)) {
        (Some(s), Some(y)) => Some((s, y)),
        _ => None,
    }
}

/// Citation `j` belongs to the group `gk`.
pub open spec fn in_group(cs: Seq<MatchedCitationV>, gk: (Seq<char>, int), j: int) -> bool {
    0 <= j < cs.len() && group_key(cs[j].entry) == Some(gk)
}

/// Citation `j` is the first of its group that carries its entry key; the
/// group's distinct entries are counted at these positions.
pub open spec fn first_rep(cs: Seq<MatchedCitationV>, gk: (Seq<char>, int), j: int) -> bool {
    &&& in_group(cs, gk, j)
    &&& forall|q: int|
        0 <= q < j && in_group(cs, gk, q) ==> cs[q].entry.key != cs[j].entry.key
}

/// Number of distinct entries of the group among the first `j` citations.
pub open spec fn count_reps_upto(cs: Seq<MatchedCitationV>, gk: (Seq<char>, int), j: int) -> int
    decreases j,
{
    if j <= 0 {
        0
    } else {
        count_reps_upto(cs, gk, j - 1) + if first_rep(cs, gk, j - 1) {
            1int
        } else {
            0int
        }
    }
}

/// Number of distinct entries in the group.
pub open spec fn group_size(cs: Seq<MatchedCitationV>, gk: (Seq<char>, int)) -> int {
    count_reps_upto(cs, gk, cs.len() as int)
}

/// Number of distinct entries of the group, among the first `j`
/// citations, whose key is smaller than `key`.
pub open spec fn count_smaller_upto(
    cs: Seq<MatchedCitationV>,
    gk: (Seq<char>, int),
    key: Seq<char>,
    j: int,
) -> int
    decreases j,
{
    if j <= 0 {
        0
    } else {
        count_smaller_upto(cs, gk, key, j - 1) + if first_rep(cs, gk, j - 1) && lex_lt(
            cs[j - 1].entry.key,
            key,
        ) {
            1int
        } else {
            0int
        }
    }
}

/// The suffix position of the entry with key `key` within its group:
/// the number of distinct group entries with a smaller key.
pub open spec fn suffix_index(cs: Seq<MatchedCitationV>, gk: (Seq<char>, int), key: Seq<char>) -> int {
    count_smaller_upto(cs, gk, key, cs.len() as int)
}

/// The letter that writes suffix digit `d`: `a` for 0 up to `z` for 25.
pub open spec fn letter_char(d: int) -> char {
    ((97 + d) as u8) as char
}

/// The suffix that position `n` receives: a single letter up to `z`, then
/// two letters (`aa`, `ab`, ...) beyond, so that a group larger than the
/// alphabet still gets distinct suffixes rather than wrapped ones.
pub open spec fn suffix_letters(n: int) -> Seq<char>
    decreases n,
{
    if n < 26 {
        seq![letter_char(n)]
    } else {
        suffix_letters(n / 26 - 1) + seq![letter_char(n % 26)]
    }
}

/// The disambiguated form of citation `i` of the list: within a group of
/// more than one distinct entry, the year and display form carry the
/// entry's suffix letter; within a group of one, the year stays bare and
/// an explicit-key citation is rewritten to `Surname Year`; a citation
/// whose entry lacks surname or year passes through unchanged, with the
/// bare year when one exists.
pub open spec fn disambiguated_of(cs: Seq<MatchedCitationV>, i: int) -> MatchedCitationDisambiguatedV {
    let c = cs[i];
    match group_key(c.entry) {
        Some(gk) => if group_size(cs, gk) > 1 {
            let suffix = suffix_letters(suffix_index(cs, gk, c.entry.key));
            MatchedCitationDisambiguatedV {
                citation_raw: c.citation_raw,
                citation_author_date_disambiguated: gk.0 + seq![' '] + int_rep(gk.1) + suffix,
                year_disambiguated: int_rep(gk.1) + suffix,
                entry: c.entry,
            }
        } else {
            MatchedCitationDisambiguatedV {
                citation_raw: c.citation_raw,
                citation_author_date_disambiguated: if c.citation_raw.len() > 0
                    && c.citation_raw[0] == '@' {
                    gk.0 + seq![' '] + int_rep(gk.1)
                } else {
                    c.citation_raw
                },
                year_disambiguated: int_rep(gk.1),
                entry: c.entry,
            }
        },
        None => MatchedCitationDisambiguatedV {
            citation_raw: c.citation_raw,
            citation_author_date_disambiguated: c.citation_raw,
            year_disambiguated: match year_of_entry(c.entry) {
                Some(y) => int_rep(y),
                None => seq![],
            },
            entry: c.entry,
        },
    }
}

/// Executable computation of an entry's group key.
fn entry_group_key(e: &Entry) -> (r: Option<(Vec<char>, i32)>)
    ensures
        match r {
            Some(p) => group_key(e@) == Some((p.0@, p.1 as int)),
            None => group_key(e@) is None,
        },
{
    match &e.authors {
        Some(a) => {
            if a.len() == 0 {
                return None;
            }
            let y: i32 = match &e.date {
                Some(PermissiveType::Typed(d)) => match d.value {
                    DateValue::At(y) => y,
                    DateValue::After(y) => y,
                    DateValue::Before(y) => y,
                    DateValue::Between(y, _end) => y,
                },
                _ => {
                    return None;
                },
            };
            Some((str_to_chars(a[0].name.as_str()), y))
        },
        None => None,
    }
}

/// Executable test for membership of citation `j` in the group `(s, y)`.
fn in_group_exec(citations: &Vec<MatchedCitation>, s: &Vec<char>, y: i32, j: usize) -> (r: bool)
    requires
        j < citations@.len(),
    ensures
        r == in_group(citations.deep_view(), (s@, y as int), j as int),
{
    match entry_group_key(&citations[j].entry) {
        Some(p) => {
            proof {
                assert(citations.deep_view()[j as int] == citations@[j as int]@);
            }
            let same = chars_eq(&p.0, s) && p.1 == y;
            proof {
                if same {
                    assert(group_key(citations.deep_view()[j as int].entry) == Some((
                        s@,
                        y as int,
                    )));
                } else {
                    assert(group_key(citations.deep_view()[j as int].entry) != Some((
                        s@,
                        y as int,
                    )));
                }
            }
            same
        },
        None => {
            proof {
                assert(citations.deep_view()[j as int] == citations@[j as int]@);
            }
            false
        },
    }
}

/// Executable test for [`first_rep`].
fn first_rep_exec(citations: &Vec<MatchedCitation>, s: &Vec<char>, y: i32, j: usize) -> (r: bool)
    requires
        j < citations@.len(),
    ensures
        r == first_rep(citations.deep_view(), (s@, y as int), j as int),
{
    let ghost cs = citations.deep_view();
    let ghost gk = (s@, y as int);
    if !in_group_exec(citations, s, y, j) {
        return false;
    }
    let key_j = str_to_chars(citations[j].entry.key.as_str());
    let mut q: usize = 0;
    while q < j
        invariant
            q <= j < cs.len(),
            cs == citations.deep_view(),
            gk == (s@, y as int),
            in_group(cs, gk, j as int),
            key_j@ == cs[j as int].entry.key,
            forall|p: int| 0 <= p < q && in_group(cs, gk, p) ==> cs[p].entry.key != cs[j as int].entry.key,
        decreases j - q,
    {
        if in_group_exec(citations, s, y, q) {
            let key_q = str_to_chars(citations[q].entry.key.as_str());
            proof {
                assert(key_q@ == cs[q as int].entry.key);
            }
            if chars_eq(&key_q, &key_j) {
                return false;
            }
        }
        q += 1;
    }
    true
}

/// Executable count of the distinct entries of a group.
fn count_group_reps(citations: &Vec<MatchedCitation>, s: &Vec<char>, y: i32) -> (n: usize)
    ensures
        n as int == group_size(citations.deep_view(), (s@, y as int)),
{
    let ghost cs = citations.deep_view();
    let mut n: usize = 0;
    let mut j: usize = 0;
    while j < citations.len()
        invariant
            j <= citations@.len(),
            cs == citations.deep_view(),
            n <= j,
            n as int == count_reps_upto(cs, (s@, y as int), j as int),
        decreases citations@.len() - j,
    {
        if first_rep_exec(citations, s, y, j) {
            n += 1;
        }
        j += 1;
    }
    n
}

/// Executable count of the distinct group entries with a smaller key.
fn count_smaller_reps(citations: &Vec<MatchedCitation>, s: &Vec<char>, y: i32, key: &Vec<char>) -> (n:
    usize)
    ensures
        n as int == suffix_index(citations.deep_view(), (s@, y as int), key@),
{
    let ghost cs = citations.deep_view();
    let mut n: usize = 0;
    let mut j: usize = 0;
    while j < citations.len()
        invariant
            j <= citations@.len(),
            cs == citations.deep_view(),
            n <= j,
            n as int == count_smaller_upto(cs, (s@, y as int), key@, j as int),
        decreases citations@.len() - j,
    {
        if first_rep_exec(citations, s, y, j) {
            let key_j = str_to_chars(citations[j].entry.key.as_str());
            proof {
                assert(key_j@ == cs[j as int].entry.key);
            }
            if lex_lt_exec(&key_j, key) {
                n += 1;
            }
        }
        j += 1;
    }
    n
}

/// Appends the suffix letters of position `n` to `out`.
fn push_suffix(out: &mut Vec<char>, n: usize)
    ensures
        final(out)@ == old(out)@ + suffix_letters(n as int),
    decreases n,
{
    if n < 26 {
        let c = ((97 + n as u8)) as char;
        proof {
            assert(c == letter_char(n as int));
        }
        out.push(c);
        proof {
            assert(old(out)@ + suffix_letters(n as int) =~= old(out)@.push(letter_char(n as int)));
        }
    } else {
        push_suffix(out, n / 26 - 1);
        let c = ((97 + (n % 26) as u8)) as char;
        proof {
            assert(c == letter_char(n as int % 26));
        }
        out.push(c);
        proof {
            assert(old(out)@ + suffix_letters(n as int) =~= (old(out)@ + suffix_letters(
                n as int / 26 - 1,
            )).push(letter_char(n as int % 26)));
        }
    }
}

/// Turns matched citations into disambiguated citations, preserving input
/// order. Suffix assignment depends only on the entries' keys within each
/// group, never on citation order, so the result is reproducible across
/// runs on the same input.
pub fn disambiguate_matched_citations(citations: Vec<MatchedCitation>) -> (r: Vec<
    MatchedCitationDisambiguated,
>)
    ensures
        r.deep_view().len() == citations.deep_view().len(),
        forall|i: int|
            0 <= i < citations.deep_view().len() ==> r.deep_view()[i] == disambiguated_of(
                citations.deep_view(),
                i,
            ),
{
    let ghost cs = citations.deep_view();
    let mut out: Vec<MatchedCitationDisambiguated> = Vec::new();
    let mut i: usize = 0;
    while i < citations.len()
        invariant
            i <= citations@.len(),
            cs == citations.deep_view(),
            out.deep_view().len() == i,
            forall|k: int| 0 <= k < i ==> out.deep_view()[k] == disambiguated_of(cs, k),
        decreases citations@.len() - i,
    {
        let ghost prev = out.deep_view();
        proof {
            assert(citations.deep_view()[i as int] == citations@[i as int]@);
        }
        let item = match entry_group_key(&citations[i].entry) {
            Some(p) => {
                let s = p.0;
                let y = p.1;
                let n = count_group_reps(&citations, &s, y);
                if n > 1 {
                    let my_key = str_to_chars(citations[i].entry.key.as_str());
                    let idx = count_smaller_reps(&citations, &s, y, &my_key);
                    let mut year_d: Vec<char> = Vec::new();
                    push_i64_dec(&mut year_d, y as i64);
                    push_suffix(&mut year_d, idx);
                    let mut disp: Vec<char> = Vec::new();
                    push_all(&mut disp, &s);
                    disp.push(' ');
                    push_all(&mut disp, &year_d);
                    MatchedCitationDisambiguated {
                        citation_raw: citations[i].citation_raw.clone(),
                        citation_author_date_disambiguated: chars_to_string(&disp),
                        year_disambiguated: chars_to_string(&year_d),
                        entry: citations[i].entry.duplicate(),
                    }
                } else {
                    let mut year_d: Vec<char> = Vec::new();
                    push_i64_dec(&mut year_d, y as i64);
                    let raw_chars = str_to_chars(citations[i].citation_raw.as_str());
                    let disp_str: String = if raw_chars.len() > 0 && raw_chars[0] == '@' {
                        let mut disp: Vec<char> = Vec::new();
                        push_all(&mut disp, &s);
                        disp.push(' ');
                        push_all(&mut disp, &year_d);
                        chars_to_string(&disp)
                    } else {
                        citations[i].citation_raw.clone()
                    };
                    MatchedCitationDisambiguated {
                        citation_raw: citations[i].citation_raw.clone(),
                        citation_author_date_disambiguated: disp_str,
                        year_disambiguated: chars_to_string(&year_d),
                        entry: citations[i].entry.duplicate(),
                    }
                }
            },
            None => {
                let mut year_d: Vec<char> = Vec::new();
                match &citations[i].entry.date {
                    Some(PermissiveType::Typed(d)) => {
                        let y: i32 = match d.value {
                            DateValue::At(y) => y,
                            DateValue::After(y) => y,
                            DateValue::Before(y) => y,
                            DateValue::Between(y, _end) => y,
                        };
                        push_i64_dec(&mut year_d, y as i64);
                    },
                    _ => {},
                }
                MatchedCitationDisambiguated {
                    citation_raw: citations[i].citation_raw.clone(),
                    citation_author_date_disambiguated: citations[i].citation_raw.clone(),
                    year_disambiguated: chars_to_string(&year_d),
                    entry: citations[i].entry.duplicate(),
                }
            },
        };
        proof {
            assert(item@ =~~= disambiguated_of(cs, i as int));
        }
        out.push(item);
        proof {
            assert(out.deep_view() =~~= prev.push(item@));
        }
        i += 1;
    }
    out
}

/// The Chicago-style author list: only the first author's name is
/// inverted; three or more authors shorten to `et al.`; no author yields
/// nothing.
pub open spec fn authors_text(a: Seq<crate::bibliography::PersonV>) -> Seq<char> {
    if a.len() > 2 {
        a[0].name + ", "@ + a[0].given_name + " et al. "@
    } else if a.len() == 2 {
        a[0].name + ", "@ + a[0].given_name + " and "@ + a[1].given_name + " "@ + a[1].name
            + ". "@
    } else if a.len() == 1 {
        a[0].name + ", "@ + a[0].given_name + ". "@
    } else {
        seq![]
    }
}

/// The comma-separated head of a contributor list: the first `j` persons,
/// each as `Given Surname, `.
pub open spec fn contributors_head(ps: Seq<crate::bibliography::PersonV>, j: int) -> Seq<char>
    decreases j,
{
    if j <= 0 {
        seq![]
    } else {
        contributors_head(ps, j - 1) + ps[j - 1].given_name + " "@ + ps[j - 1].name + ", "@
    }
}

/// A contributor block such as `Translated by A B, C D and E F. `; an
/// empty list yields nothing.
pub open spec fn contributors_text(ps: Seq<crate::bibliography::PersonV>, desc: Seq<char>) -> Seq<
    char,
> {
    if ps.len() > 1 {
        desc + " by "@ + contributors_head(ps, ps.len() - 1) + "and "@ + ps.last().given_name
            + " "@ + ps.last().name + ". "@
    } else if ps.len() == 1 {
        desc + " by "@ + ps[0].given_name + " "@ + ps[0].name + ". "@
    } else {
        seq![]
    }
}

/// The text of an optional formatted field; a missing field renders as
/// nothing.
pub open spec fn field_text(f: Option<Seq<crate::bibliography::ChunkV>>) -> Seq<char> {
    match f {
        Some(cs) => crate::utils::chunks_text(cs),
        None => seq![],
    }
}

/// The text of an entry's publisher field.
pub open spec fn publisher_text(e: EntryV) -> Seq<char> {
    match e.publisher {
        Some(p) => crate::utils::chunk_lists_text(p),
        None => seq![],
    }
}

/// The volume an entry resolves to; anything but a typed volume counts
/// as 0.
pub open spec fn volume_of(e: EntryV) -> int {
    match e.volume {
        Some(PermissiveType::Typed(v)) => v as int,
        _ => 0,
    }
}

/// The written pages of an entry; anything but typed ranges renders as
/// nothing.
pub open spec fn pages_of(e: EntryV) -> Seq<char> {
    match e.pages {
        Some(crate::bibliography::PagesV::Typed(rs)) => crate::utils::pages_text(rs),
        _ => seq![],
    }
}

/// The DOI segment: rendered only when a DOI is present.
pub open spec fn doi_text(d: Seq<char>) -> Seq<char> {
    if d.len() == 0 {
        seq![]
    } else {
        "https://doi.org/"@ + d + "."@
    }
}

/// The entry's DOI, or nothing.
pub open spec fn doi_of(e: EntryV) -> Seq<char> {
    match e.doi {
        Some(d) => d,
        None => seq![],
    }
}

/// The entry's translators, or nobody.
pub open spec fn translators_of(e: EntryV) -> Seq<crate::bibliography::PersonV> {
    match e.translators {
        Some(t) => t,
        None => seq![],
    }
}

/// The entry's authors, or nobody.
pub open spec fn authors_of(e: EntryV) -> Seq<crate::bibliography::PersonV> {
    match e.authors {
        Some(a) => a,
        None => seq![],
    }
}

/// One rendered bibliography line for a book:
/// `Authors. Year. _Title_. Translators. Address: Publisher. DOI`,
/// with the trailing space trimmed.
pub open spec fn book_entry_text(m: MatchedCitationDisambiguatedV) -> Seq<char> {
    crate::text::trim_end(
        authors_text(authors_of(m.entry)) + m.year_disambiguated + ". "@ + "_"@ + field_text(
            m.entry.title,
        ) + "_. "@ + contributors_text(translators_of(m.entry), "Translated"@) + field_text(
            m.entry.address,
        ) + ": "@ + publisher_text(m.entry) + ". "@ + doi_text(doi_of(m.entry)),
    )
}

/// One rendered bibliography line for an article:
/// `Authors. Year. "Title". _Journal_ Volume (Number): Pages. Translators. DOI`,
/// with the trailing space trimmed.
pub open spec fn article_entry_text(m: MatchedCitationDisambiguatedV) -> Seq<char> {
    crate::text::trim_end(
        authors_text(authors_of(m.entry)) + m.year_disambiguated + ". "@ + "\""@ + field_text(
            m.entry.title,
        ) + "\". "@ + "_"@ + field_text(m.entry.journal) + "_ "@ + int_rep(volume_of(m.entry))
            + " ("@ + field_text(m.entry.number) + "): "@ + pages_of(m.entry) + ". "@
            + contributors_text(translators_of(m.entry), "Translated"@) + doi_text(
            doi_of(m.entry),
        ),
    )
}

/// Chicago-style author formatting; no author yields the empty string.
pub fn format_authors(author: Vec<crate::bibliography::Person>) -> (r: String)
    ensures
        r@ == authors_text(author.deep_view()),
{
    let mut out: Vec<char> = Vec::new();
    if author.len() >= 1 {
        let n0 = str_to_chars(author[0].name.as_str());
        let g0 = str_to_chars(author[0].given_name.as_str());
        push_all(&mut out, &n0);
        let comma = str_to_chars(", ");
        push_all(&mut out, &comma);
        push_all(&mut out, &g0);
        if author.len() > 2 {
            let tail = str_to_chars(" et al. ");
            push_all(&mut out, &tail);
        } else if author.len() == 2 {
            let and_sep = str_to_chars(" and ");
            push_all(&mut out, &and_sep);
            let g1 = str_to_chars(author[1].given_name.as_str());
            push_all(&mut out, &g1);
            let space = str_to_chars(" ");
            push_all(&mut out, &space);
            let n1 = str_to_chars(author[1].name.as_str());
            push_all(&mut out, &n1);
            let dot = str_to_chars(". ");
            push_all(&mut out, &dot);
        } else {
            let dot = str_to_chars(". ");
            push_all(&mut out, &dot);
        }
    }
    proof {
        assert(out@ =~= authors_text(author.deep_view()));
    }
    chars_to_string(&out)
}

/// A contributor block, e.g. `Translated by Jane Doe. `, handling one or
/// several contributors.
pub fn generate_contributors(
    contributors: Vec<crate::bibliography::Person>,
    contributor_description: String,
) -> (r: String)
    ensures
        r@ == contributors_text(contributors.deep_view(), contributor_description@),
{
    let mut out: Vec<char> = Vec::new();
    if contributors.len() == 0 {
        proof {
            assert(out@ =~= contributors_text(
                contributors.deep_view(),
                contributor_description@,
            ));
        }
        return chars_to_string(&out);
    }
    let desc = str_to_chars(contributor_description.as_str());
    push_all(&mut out, &desc);
    let by_sep = str_to_chars(" by ");
    push_all(&mut out, &by_sep);
    if contributors.len() == 1 {
        let g = str_to_chars(contributors[0].given_name.as_str());
        let n = str_to_chars(contributors[0].name.as_str());
        push_all(&mut out, &g);
        let space = str_to_chars(" ");
        push_all(&mut out, &space);
        push_all(&mut out, &n);
        let dot = str_to_chars(". ");
        push_all(&mut out, &dot);
        proof {
            assert(out@ =~= contributors_text(
                contributors.deep_view(),
                contributor_description@,
            ));
        }
        return chars_to_string(&out);
    }
    let ghost ps = contributors.deep_view();
    let last = contributors.len() - 1;
    let mut i: usize = 0;
    while i < last
        invariant
            ps == contributors.deep_view(),
            last == contributors@.len() - 1,
            i <= last,
            out@ == desc@ + " by "@ + contributors_head(ps, i as int),
            desc@ == contributor_description@,
        decreases last - i,
    {
        let g = str_to_chars(contributors[i].given_name.as_str());
        let n = str_to_chars(contributors[i].name.as_str());
        push_all(&mut out, &g);
        let space = str_to_chars(" ");
        push_all(&mut out, &space);
        push_all(&mut out, &n);
        let comma = str_to_chars(", ");
        push_all(&mut out, &comma);
        proof {
            assert(out@ =~= desc@ + " by "@ + contributors_head(ps, i + 1));
        }
        i += 1;
    }
    let and_sep = str_to_chars("and ");
    push_all(&mut out, &and_sep);
    let g = str_to_chars(contributors[last].given_name.as_str());
    push_all(&mut out, &g);
    let space = str_to_chars(" ");
    push_all(&mut out, &space);
    let n = str_to_chars(contributors[last].name.as_str());
    push_all(&mut out, &n);
    let dot = str_to_chars(". ");
    push_all(&mut out, &dot);
    proof {
        assert(ps.last() == ps[last as int]);
        assert(out@ =~= contributors_text(ps, contributor_description@));
    }
    chars_to_string(&out)
}

/// Title of the entry, or the empty string.
pub fn extract_title(entry: &Entry) -> (r: String)
    ensures
        r@ == field_text(entry@.title),
{
    match &entry.title {
        Some(t) => crate::utils::BiblatexUtils::extract_spanned_chunk(t),
        None => String::new(),
    }
}

/// Publisher of the entry, or the empty string.
pub fn extract_publisher(entry: &Entry) -> (r: String)
    ensures
        r@ == publisher_text(entry@),
{
    match &entry.publisher {
        Some(p) => crate::utils::BiblatexUtils::extract_publisher(p),
        None => String::new(),
    }
}

/// Address of the publisher, or the empty string.
pub fn extract_address(entry: &Entry) -> (r: String)
    ensures
        r@ == field_text(entry@.address),
{
    match &entry.address {
        Some(a) => crate::utils::BiblatexUtils::extract_spanned_chunk(a),
        None => String::new(),
    }
}

/// Name of the journal of the article, or the empty string.
pub fn extract_journal(entry: &Entry) -> (r: String)
    ensures
        r@ == field_text(entry@.journal),
{
    match &entry.journal {
        Some(j) => crate::utils::BiblatexUtils::extract_spanned_chunk(j),
        None => String::new(),
    }
}

/// Volume of the journal; anything else counts as 0.
pub fn extract_volume(entry: &Entry) -> (r: i64)
    ensures
        r as int == volume_of(entry@),
{
    match &entry.volume {
        Some(v) => crate::utils::BiblatexUtils::extract_volume(v),
        None => 0i64,
    }
}

/// Number of the journal, or the empty string.
pub fn extract_number(entry: &Entry) -> (r: String)
    ensures
        r@ == field_text(entry@.number),
{
    match &entry.number {
        Some(n) => crate::utils::BiblatexUtils::extract_spanned_chunk(n),
        None => String::new(),
    }
}

/// Pages of the article, or the empty string.
pub fn extract_pages(entry: &Entry) -> (r: String)
    ensures
        r@ == pages_of(entry@),
{
    match &entry.pages {
        Some(p) => crate::utils::BiblatexUtils::extract_pages(p),
        None => String::new(),
    }
}

/// Renders one book entry in Chicago bibliography style.
pub fn transform_book_entry(matched_citation: &MatchedCitationDisambiguated) -> (r: String)
    ensures
        r@ == book_entry_text(matched_citation@),
{
    let entry = &matched_citation.entry;
    let mut out: Vec<char> = Vec::new();
    let authors = match &entry.authors {
        Some(a) => crate::bibliography::duplicate_persons(a),
        None => Vec::new(),
    };
    let authors_str = format_authors(authors);
    let piece = str_to_chars(authors_str.as_str());
    push_all(&mut out, &piece);
    let year = str_to_chars(matched_citation.year_disambiguated.as_str());
    push_all(&mut out, &year);
    let dot = str_to_chars(". ");
    push_all(&mut out, &dot);
    let under = str_to_chars("_");
    push_all(&mut out, &under);
    let title = str_to_chars(extract_title(entry).as_str());
    push_all(&mut out, &title);
    let under_dot = str_to_chars("_. ");
    push_all(&mut out, &under_dot);
    let translators = match &entry.translators {
        Some(t) => crate::bibliography::duplicate_persons(t),
        None => Vec::new(),
    };
    let translators_str = generate_contributors(translators, "Translated".to_owned());
    let tr_piece = str_to_chars(translators_str.as_str());
    push_all(&mut out, &tr_piece);
    let address = str_to_chars(extract_address(entry).as_str());
    push_all(&mut out, &address);
    let colon = str_to_chars(": ");
    push_all(&mut out, &colon);
    let publisher = str_to_chars(extract_publisher(entry).as_str());
    push_all(&mut out, &publisher);
    push_all(&mut out, &dot);
    match &entry.doi {
        Some(d) => {
            if !d.as_str().is_empty() {
                let doi_pre = str_to_chars("https://doi.org/");
                push_all(&mut out, &doi_pre);
                let doi = str_to_chars(d.as_str());
                push_all(&mut out, &doi);
                out.push('.');
            }
        },
        None => {},
    }
    proof {
        reveal_strlit(".");
        assert(doi_text(doi_of(entry@)) =~= match entry@.doi {
            Some(d) => if d.len() == 0 {
                Seq::<char>::empty()
            } else {
                "https://doi.org/"@ + d + "."@
            },
            None => Seq::<char>::empty(),
        });
        assert(out@ =~= authors_text(authors_of(entry@)) + matched_citation.year_disambiguated@
            + ". "@ + "_"@ + field_text(entry@.title) + "_. "@ + contributors_text(
            translators_of(entry@),
            "Translated"@,
        ) + field_text(entry@.address) + ": "@ + publisher_text(entry@) + ". "@ + doi_text(
            doi_of(entry@),
        ));
    }
    let trimmed = crate::text::trim_end_exec(&out);
    chars_to_string(&trimmed)
}

/// Renders one article entry in Chicago bibliography style.
pub fn transform_article_entry(matched_citation: &MatchedCitationDisambiguated) -> (r: String)
    ensures
        r@ == article_entry_text(matched_citation@),
{
    let entry = &matched_citation.entry;
    let mut out: Vec<char> = Vec::new();
    let authors = match &entry.authors {
        Some(a) => crate::bibliography::duplicate_persons(a),
        None => Vec::new(),
    };
    let authors_str = format_authors(authors);
    let piece = str_to_chars(authors_str.as_str());
    push_all(&mut out, &piece);
    let year = str_to_chars(matched_citation.year_disambiguated.as_str());
    push_all(&mut out, &year);
    let dot = str_to_chars(". ");
    push_all(&mut out, &dot);
    let quote = str_to_chars("\"");
    push_all(&mut out, &quote);
    let title = str_to_chars(extract_title(entry).as_str());
    push_all(&mut out, &title);
    let quote_dot = str_to_chars("\". ");
    push_all(&mut out, &quote_dot);
    let under = str_to_chars("_");
    push_all(&mut out, &under);
    let journal = str_to_chars(extract_journal(entry).as_str());
    push_all(&mut out, &journal);
    let under_sp = str_to_chars("_ ");
    push_all(&mut out, &under_sp);
    push_i64_dec(&mut out, extract_volume(entry));
    let open_paren = str_to_chars(" (");
    push_all(&mut out, &open_paren);
    let number = str_to_chars(extract_number(entry).as_str());
    push_all(&mut out, &number);
    let close_paren = str_to_chars("): ");
    push_all(&mut out, &close_paren);
    let pages = str_to_chars(extract_pages(entry).as_str());
    push_all(&mut out, &pages);
    push_all(&mut out, &dot);
    let translators = match &entry.translators {
        Some(t) => crate::bibliography::duplicate_persons(t),
        None => Vec::new(),
    };
    let translators_str = generate_contributors(translators, "Translated".to_owned());
    let tr_piece = str_to_chars(translators_str.as_str());
    push_all(&mut out, &tr_piece);
    match &entry.doi {
        Some(d) => {
            if !d.as_str().is_empty() {
                let doi_pre = str_to_chars("https://doi.org/");
                push_all(&mut out, &doi_pre);
                let doi = str_to_chars(d.as_str());
                push_all(&mut out, &doi);
                out.push('.');
            }
        },
        None => {},
    }
    proof {
        reveal_strlit(".");
        assert(doi_text(doi_of(entry@)) =~= match entry@.doi {
            Some(d) => if d.len() == 0 {
                Seq::<char>::empty()
            } else {
                "https://doi.org/"@ + d + "."@
            },
            None => Seq::<char>::empty(),
        });
        assert(out@ =~= authors_text(authors_of(entry@)) + matched_citation.year_disambiguated@
            + ". "@ + "\""@ + field_text(entry@.title) + "\". "@ + "_"@ + field_text(
            entry@.journal,
        ) + "_ "@ + int_rep(volume_of(entry@)) + " ("@ + field_text(entry@.number) + "): "@
            + pages_of(entry@) + ". "@ + contributors_text(translators_of(entry@), "Translated"@)
            + doi_text(doi_of(entry@)));
    }
    let trimmed = crate::text::trim_end_exec(&out);
    chars_to_string(&trimmed)
}

/// The sorting key of an entry's line: the first author's surname,
/// lowercased; entries without authors sort as the empty string, before
/// all others.
pub open spec fn entry_sort_key(m: MatchedCitationDisambiguatedV) -> Seq<char> {
    match m.entry.authors {
        Some(a) => if a.len() > 0 {
            crate::text::lower_seq(a[0].name)
        } else {
            seq![]
        },
        None => seq![],
    }
}

/// Insertion of an element into a sorted run: it lands after every
/// element whose key is not greater, which keeps the sort stable.
pub open spec fn insert_stable(
    s: Seq<MatchedCitationDisambiguatedV>,
    m: MatchedCitationDisambiguatedV,
) -> Seq<MatchedCitationDisambiguatedV>
    decreases s.len(),
{
    if s.len() == 0 {
        seq![m]
    } else if lex_lt(entry_sort_key(m), entry_sort_key(s.last())) {
        insert_stable(s.drop_last(), m).push(s.last())
    } else {
        s.push(m)
    }
}

/// The stable sort of the entry lines by case-insensitive first-author
/// surname: elements with equal keys keep their input order.
pub open spec fn stable_sorted(s: Seq<MatchedCitationDisambiguatedV>) -> Seq<
    MatchedCitationDisambiguatedV,
>
    decreases s.len(),
{
    if s.len() == 0 {
        seq![]
    } else {
        insert_stable(stable_sorted(s.drop_last()), s.last())
    }
}

proof fn lemma_insert_stable_at(
    s: Seq<MatchedCitationDisambiguatedV>,
    m: MatchedCitationDisambiguatedV,
    q: int,
)
    requires
        0 <= q <= s.len(),
        forall|idx: int| q <= idx < s.len() ==> lex_lt(entry_sort_key(m), entry_sort_key(s[idx])),
        q > 0 ==> !lex_lt(entry_sort_key(m), entry_sort_key(s[q - 1])),
    ensures
        insert_stable(s, m) == s.subrange(0, q) + seq![m] + s.subrange(q, s.len() as int),
    decreases s.len(),
{
    if s.len() == 0 {
        assert(insert_stable(s, m) =~= s.subrange(0, q) + seq![m] + s.subrange(q, s.len() as int));
    } else if q == s.len() {
        assert(!lex_lt(entry_sort_key(m), entry_sort_key(s[q - 1])));
        assert(s.last() == s[q - 1]);
        assert(insert_stable(s, m) == s.push(m));
        assert(s.push(m) =~= s.subrange(0, q) + seq![m] + s.subrange(q, s.len() as int));
    } else {
        assert(lex_lt(entry_sort_key(m), entry_sort_key(s.last())));
        let t = s.drop_last();
        assert(forall|idx: int| q <= idx < t.len() ==> t[idx] == s[idx]);
        if q > 0 {
            assert(t[q - 1] == s[q - 1]);
        }
        lemma_insert_stable_at(t, m, q);
        assert(insert_stable(s, m) == (t.subrange(0, q) + seq![m] + t.subrange(
            q,
            t.len() as int,
        )).push(s.last()));
        assert((t.subrange(0, q) + seq![m] + t.subrange(q, t.len() as int)).push(s.last()) =~= s
            .subrange(0, q) + seq![m] + s.subrange(q, s.len() as int));
    }
}

/// Executable computation of [`entry_sort_key`].
fn entry_sort_key_exec(m: &MatchedCitationDisambiguated) -> (r: Vec<char>)
    ensures
        r@ == entry_sort_key(m@),
{
    match &m.entry.authors {
        Some(a) => {
            if a.len() > 0 {
                let name = str_to_chars(a[0].name.as_str());
                crate::text::to_lower_chars(&name)
            } else {
                Vec::new()
            }
        },
        None => Vec::new(),
    }
}

/// Sorts entry lines by first author's surname, case-insensitively and
/// stably; entries without authors come first.
pub fn sort_entries(entries: &Vec<MatchedCitationDisambiguated>) -> (r: Vec<
    MatchedCitationDisambiguated,
>)
    ensures
        r.deep_view() == stable_sorted(entries.deep_view()),
{
    let ghost dv = entries.deep_view();
    let mut out: Vec<MatchedCitationDisambiguated> = Vec::new();
    let mut i: usize = 0;
    proof {
        assert(dv.subrange(0, 0) =~= Seq::<MatchedCitationDisambiguatedV>::empty());
        assert(out.deep_view() =~= stable_sorted(dv.subrange(0, 0)));
    }
    while i < entries.len()
        invariant
            i <= entries@.len(),
            dv == entries.deep_view(),
            out.deep_view() == stable_sorted(dv.subrange(0, i as int)),
        decreases entries@.len() - i,
    {
        let item = entries[i].duplicate();
        let key = entry_sort_key_exec(&item);
        let mut q: usize = out.len();
        loop
            invariant_except_break
                q <= out@.len(),
                key@ == entry_sort_key(item@),
                forall|idx: int|
                    q <= idx < out.deep_view().len() ==> lex_lt(
                        entry_sort_key(item@),
                        entry_sort_key(#[trigger] out.deep_view()[idx]),
                    ),
            ensures
                q <= out@.len(),
                forall|idx: int|
                    q <= idx < out.deep_view().len() ==> lex_lt(
                        entry_sort_key(item@),
                        entry_sort_key(#[trigger] out.deep_view()[idx]),
                    ),
                q > 0 ==> !lex_lt(
                    entry_sort_key(item@),
                    entry_sort_key(out.deep_view()[q - 1]),
                ),
            decreases q,
        {
            if q == 0 {
                break;
            }
            let prev_key = entry_sort_key_exec(&out[q - 1]);
            proof {
                assert(out.deep_view()[q - 1] == out@[q - 1]@);
            }
            if !crate::text::lex_lt_exec(&key, &prev_key) {
                break;
            }
            q -= 1;
        }
        let ghost prev = out.deep_view();
        out.insert(q, item);
        proof {
            lemma_insert_stable_at(prev, item@, q as int);
        }
        proof {
            let sub = dv.subrange(0, i + 1);
            assert(sub.drop_last() =~= dv.subrange(0, i as int));
            assert(sub.last() == dv[i as int]);
            assert(out.deep_view() =~~= prev.subrange(0, q as int) + seq![item@] + prev.subrange(
                q as int,
                prev.len() as int,
            ));
            assert(out.deep_view() =~~= stable_sorted(sub));
        }
        i += 1;
    }
    proof {
        assert(dv.subrange(0, dv.len() as int) =~= dv);
    }
    out
}

/// The rendered lines of a run of entries, in order: one line per book or
/// article; other entry types are skipped.
pub open spec fn rendered_entries(s: Seq<MatchedCitationDisambiguatedV>) -> Seq<Seq<char>>
    decreases s.len(),
{
    if s.len() == 0 {
        seq![]
    } else {
        rendered_entries(s.drop_last()) + match s.last().entry.entry_type {
            crate::bibliography::EntryType::Book => seq![book_entry_text(s.last())],
            crate::bibliography::EntryType::Article => seq![article_entry_text(s.last())],
            crate::bibliography::EntryType::Other => seq![],
        }
    }
}

/// Renders the given entries as Chicago bibliography lines, sorted
/// case-insensitively by first author's surname. Entry types other than
/// book and article are skipped.
pub fn entries_to_strings(entries: &Vec<MatchedCitationDisambiguated>) -> (r: Vec<String>)
    ensures
        r.deep_view() == rendered_entries(stable_sorted(entries.deep_view())),
{
    let sorted_entries = sort_entries(entries);
    let ghost sv = sorted_entries.deep_view();
    let mut out: Vec<String> = Vec::new();
    let mut i: usize = 0;
    proof {
        assert(sv.subrange(0, 0) =~= Seq::<MatchedCitationDisambiguatedV>::empty());
        assert(out.deep_view() =~= rendered_entries(sv.subrange(0, 0)));
    }
    while i < sorted_entries.len()
        invariant
            i <= sorted_entries@.len(),
            sv == sorted_entries.deep_view(),
            out.deep_view() == rendered_entries(sv.subrange(0, i as int)),
        decreases sorted_entries@.len() - i,
    {
        let ghost prev = out.deep_view();
        proof {
            assert(sv[i as int] == sorted_entries@[i as int]@);
        }
        match sorted_entries[i].entry.entry_type {
            crate::bibliography::EntryType::Book => {
                let line = transform_book_entry(&sorted_entries[i]);
                out.push(line);
                proof {
                    assert(out.deep_view() =~~= prev.push(book_entry_text(sv[i as int])));
                }
            },
            crate::bibliography::EntryType::Article => {
                let line = transform_article_entry(&sorted_entries[i]);
                out.push(line);
                proof {
                    assert(out.deep_view() =~~= prev.push(article_entry_text(sv[i as int])));
                }
            },
            crate::bibliography::EntryType::Other => {},
        }
        proof {
            let sub = sv.subrange(0, i + 1);
            assert(sub.drop_last() =~= sv.subrange(0, i as int));
            assert(sub.last() == sv[i as int]);
            assert(out.deep_view() =~= rendered_entries(sub));
        }
        i += 1;
    }
    proof {
        assert(sv.subrange(0, sv.len() as int) =~= sv);
    }
    out
}

/// Disambiguation is a function of its input alone: any two results that
/// satisfy the contract of `disambiguate_matched_citations` on the same
/// matched citations are identical, display forms and years included. So
/// re-running on the identical input reproduces the identical output.
pub proof fn lemma_disambiguation_reproducible(
    cs: Seq<MatchedCitationV>,
    r1: Seq<MatchedCitationDisambiguatedV>,
    r2: Seq<MatchedCitationDisambiguatedV>,
)
    requires
        r1.len() == cs.len(),
        forall|i: int| 0 <= i < cs.len() ==> r1[i] == disambiguated_of(cs, i),
        r2.len() == cs.len(),
        forall|i: int| 0 <= i < cs.len() ==> r2[i] == disambiguated_of(cs, i),
    ensures
        r1 == r2,
{
    assert(r1 =~= r2);
}

/// A group holding exactly one distinct entry keeps its bare year: no
/// suffix letter is appended.
pub proof fn lemma_single_group_bare_year(cs: Seq<MatchedCitationV>, i: int)
    requires
        0 <= i < cs.len(),
        group_key(cs[i].entry) is Some,
        group_size(cs, group_key(cs[i].entry)->0) == 1,
    ensures
        ({
            let gk = group_key(cs[i].entry)->0;
            disambiguated_of(cs, i).year_disambiguated == int_rep(gk.1)
        }),
{
}

proof fn lemma_count_smaller_nonneg(cs: Seq<MatchedCitationV>, gk: (Seq<char>, int), key: Seq<char>, j: int)
    ensures
        count_smaller_upto(cs, gk, key, j) >= 0,
    decreases j,
{
    if j > 0 {
        lemma_count_smaller_nonneg(cs, gk, key, j - 1);
    }
}

proof fn lemma_first_rep_exists(cs: Seq<MatchedCitationV>, gk: (Seq<char>, int), i: int)
    requires
        in_group(cs, gk, i),
    ensures
        exists|p: int|
            0 <= p <= i && #[trigger] first_rep(cs, gk, p) && cs[p].entry.key == cs[i].entry.key,
    decreases i,
{
    if first_rep(cs, gk, i) {
        assert(first_rep(cs, gk, i) && cs[i].entry.key == cs[i].entry.key);
    } else {
        let q = choose|q: int|
            0 <= q < i && #[trigger] in_group(cs, gk, q) && cs[q].entry.key == cs[i].entry.key;
        lemma_first_rep_exists(cs, gk, q);
        let p = choose|p: int|
            0 <= p <= q && #[trigger] first_rep(cs, gk, p) && cs[p].entry.key == cs[q].entry.key;
        assert(first_rep(cs, gk, p) && cs[p].entry.key == cs[i].entry.key);
    }
}

proof fn lemma_smaller_le_reps_strict(
    cs: Seq<MatchedCitationV>,
    gk: (Seq<char>, int),
    key: Seq<char>,
    p: int,
    j: int,
)
    requires
        0 <= p < j,
        first_rep(cs, gk, p),
        !lex_lt(cs[p].entry.key, key),
    ensures
        count_smaller_upto(cs, gk, key, j) < count_reps_upto(cs, gk, j),
    decreases j,
{
    if j - 1 == p {
        lemma_smaller_le_reps(cs, gk, key, j - 1);
    } else {
        lemma_smaller_le_reps_strict(cs, gk, key, p, j - 1);
    }
}

proof fn lemma_smaller_le_reps(cs: Seq<MatchedCitationV>, gk: (Seq<char>, int), key: Seq<char>, j: int)
    ensures
        count_smaller_upto(cs, gk, key, j) <= count_reps_upto(cs, gk, j),
    decreases j,
{
    if j > 0 {
        lemma_smaller_le_reps(cs, gk, key, j - 1);
    }
}

proof fn lemma_smaller_mono(
    cs: Seq<MatchedCitationV>,
    gk: (Seq<char>, int),
    k1: Seq<char>,
    k2: Seq<char>,
    j: int,
)
    requires
        lex_lt(k1, k2),
    ensures
        count_smaller_upto(cs, gk, k1, j) <= count_smaller_upto(cs, gk, k2, j),
    decreases j,
{
    if j > 0 {
        lemma_smaller_mono(cs, gk, k1, k2, j - 1);
        if first_rep(cs, gk, j - 1) && lex_lt(cs[j - 1].entry.key, k1) {
            crate::text::lemma_lex_transitive(cs[j - 1].entry.key, k1, k2);
        }
    }
}

proof fn lemma_smaller_strict(
    cs: Seq<MatchedCitationV>,
    gk: (Seq<char>, int),
    k1: Seq<char>,
    k2: Seq<char>,
    p: int,
    j: int,
)
    requires
        0 <= p < j,
        first_rep(cs, gk, p),
        cs[p].entry.key == k1,
        lex_lt(k1, k2),
    ensures
        count_smaller_upto(cs, gk, k1, j) < count_smaller_upto(cs, gk, k2, j),
    decreases j,
{
    if j - 1 == p {
        lemma_smaller_mono(cs, gk, k1, k2, j - 1);
        crate::text::lemma_lex_trichotomy(k1, k1);
        assert(!lex_lt(cs[p].entry.key, k1));
        assert(lex_lt(cs[p].entry.key, k2));
    } else {
        lemma_smaller_strict(cs, gk, k1, k2, p, j - 1);
        if first_rep(cs, gk, j - 1) && lex_lt(cs[j - 1].entry.key, k1) {
            crate::text::lemma_lex_transitive(cs[j - 1].entry.key, k1, k2);
        }
    }
}

/// In a group of more than one distinct entry, each member's
/// disambiguated year is its bare year followed by its suffix letters,
/// the suffix position lies below the group's size, and a position below
/// 26 is a single letter (`a` for position 0).
pub proof fn lemma_suffix_assignment(cs: Seq<MatchedCitationV>, i: int)
    requires
        0 <= i < cs.len(),
        group_key(cs[i].entry) is Some,
        group_size(cs, group_key(cs[i].entry)->0) > 1,
    ensures
        ({
            let gk = group_key(cs[i].entry)->0;
            let idx = suffix_index(cs, gk, cs[i].entry.key);
            &&& 0 <= idx < group_size(cs, gk)
            &&& disambiguated_of(cs, i).year_disambiguated == int_rep(gk.1) + suffix_letters(idx)
            &&& disambiguated_of(cs, i).citation_author_date_disambiguated == gk.0 + seq![' ']
                + int_rep(gk.1) + suffix_letters(idx)
            &&& (idx < 26 ==> suffix_letters(idx) == seq![letter_char(idx)])
        }),
{
    let gk = group_key(cs[i].entry)->0;
    let key = cs[i].entry.key;
    lemma_count_smaller_nonneg(cs, gk, key, cs.len() as int);
    assert(in_group(cs, gk, i));
    lemma_first_rep_exists(cs, gk, i);
    let p = choose|p: int|
        0 <= p <= i && #[trigger] first_rep(cs, gk, p) && cs[p].entry.key == cs[i].entry.key;
    crate::text::lemma_lex_trichotomy(key, key);
    lemma_smaller_le_reps_strict(cs, gk, key, p, cs.len() as int);
}

/// Within one group, suffix positions follow the entry keys: a smaller
/// key gets a strictly smaller position, and distinct keys get distinct
/// positions — each suffix is unique within its group.
pub proof fn lemma_suffix_order_and_uniqueness(cs: Seq<MatchedCitationV>, i: int, j: int)
    requires
        0 <= i < cs.len(),
        0 <= j < cs.len(),
        group_key(cs[i].entry) is Some,
        group_key(cs[i].entry) == group_key(cs[j].entry),
    ensures
        ({
            let gk = group_key(cs[i].entry)->0;
            &&& lex_lt(cs[i].entry.key, cs[j].entry.key) ==> suffix_index(cs, gk, cs[i].entry.key)
                < suffix_index(cs, gk, cs[j].entry.key)
            &&& cs[i].entry.key != cs[j].entry.key ==> suffix_index(cs, gk, cs[i].entry.key)
                != suffix_index(cs, gk, cs[j].entry.key)
        }),
{
    let gk = group_key(cs[i].entry)->0;
    let ki = cs[i].entry.key;
    let kj = cs[j].entry.key;
    if lex_lt(ki, kj) {
        assert(in_group(cs, gk, i));
        lemma_first_rep_exists(cs, gk, i);
        let p = choose|p: int|
            0 <= p <= i && #[trigger] first_rep(cs, gk, p) && cs[p].entry.key == cs[i].entry.key;
        lemma_smaller_strict(cs, gk, ki, kj, p, cs.len() as int);
    }
    if lex_lt(kj, ki) {
        assert(in_group(cs, gk, j));
        lemma_first_rep_exists(cs, gk, j);
        let q = choose|q: int|
            0 <= q <= j && #[trigger] first_rep(cs, gk, q) && cs[q].entry.key == cs[j].entry.key;
        lemma_smaller_strict(cs, gk, kj, ki, q, cs.len() as int);
    }
    if ki != kj {
        crate::text::lemma_lex_trichotomy(ki, kj);
    }
}

/// Number of distinct entries of the group, among the first `j`
/// citations, whose key equals `key`.
spec fn count_eq_upto(cs: Seq<MatchedCitationV>, gk: (Seq<char>, int), key: Seq<char>, j: int) -> int
    decreases j,
{
    if j <= 0 {
        0
    } else {
        count_eq_upto(cs, gk, key, j - 1) + if first_rep(cs, gk, j - 1) && cs[j - 1].entry.key
            == key {
            1int
        } else {
            0int
        }
    }
}

/// Number of distinct entries of the group, among the first `j`
/// citations, whose key is greater than `key`.
spec fn count_greater_upto(cs: Seq<MatchedCitationV>, gk: (Seq<char>, int), key: Seq<char>, j: int) -> int
    decreases j,
{
    if j <= 0 {
        0
    } else {
        count_greater_upto(cs, gk, key, j - 1) + if first_rep(cs, gk, j - 1) && lex_lt(
            key,
            cs[j - 1].entry.key,
        ) {
            1int
        } else {
            0int
        }
    }
}

proof fn lemma_rep_partition(cs: Seq<MatchedCitationV>, gk: (Seq<char>, int), key: Seq<char>, j: int)
    requires
        j >= 0,
    ensures
        count_reps_upto(cs, gk, j) == count_smaller_upto(cs, gk, key, j) + count_eq_upto(
            cs,
            gk,
            key,
            j,
        ) + count_greater_upto(cs, gk, key, j),
    decreases j,
{
    if j > 0 {
        lemma_rep_partition(cs, gk, key, j - 1);
        if first_rep(cs, gk, j - 1) {
            crate::text::lemma_lex_trichotomy(cs[j - 1].entry.key, key);
        }
    }
}

proof fn lemma_eq_shape(cs: Seq<MatchedCitationV>, gk: (Seq<char>, int), key: Seq<char>, j: int)
    requires
        j >= 0,
    ensures
        count_eq_upto(cs, gk, key, j) == if exists|p: int|
            0 <= p < j && #[trigger] first_rep(cs, gk, p) && cs[p].entry.key == key {
            1int
        } else {
            0int
        },
    decreases j,
{
    if j > 0 {
        lemma_eq_shape(cs, gk, key, j - 1);
        if first_rep(cs, gk, j - 1) && cs[j - 1].entry.key == key {
            // an earlier representative of the same key would contradict
            // this position being the group's first carrier of it
            if exists|p: int|
                0 <= p < j - 1 && #[trigger] first_rep(cs, gk, p) && cs[p].entry.key == key {
                let p = choose|p: int|
                    0 <= p < j - 1 && #[trigger] first_rep(cs, gk, p) && cs[p].entry.key == key;
                assert(in_group(cs, gk, p));
                assert(false);
            }
            assert(first_rep(cs, gk, j - 1) && cs[j - 1].entry.key == key);
        }
    }
}

proof fn lemma_reps_pos_exists(cs: Seq<MatchedCitationV>, gk: (Seq<char>, int), j: int)
    requires
        count_reps_upto(cs, gk, j) > 0,
    ensures
        exists|p: int| 0 <= p < j && #[trigger] first_rep(cs, gk, p),
    decreases j,
{
    if j > 0 {
        if first_rep(cs, gk, j - 1) {
        } else {
            lemma_reps_pos_exists(cs, gk, j - 1);
        }
    }
}

proof fn lemma_greater_pos_exists(cs: Seq<MatchedCitationV>, gk: (Seq<char>, int), key: Seq<char>, j: int)
    requires
        count_greater_upto(cs, gk, key, j) > 0,
    ensures
        exists|p: int|
            0 <= p < j && #[trigger] first_rep(cs, gk, p) && lex_lt(key, cs[p].entry.key),
    decreases j,
{
    if j > 0 {
        if first_rep(cs, gk, j - 1) && lex_lt(key, cs[j - 1].entry.key) {
        } else {
            lemma_greater_pos_exists(cs, gk, key, j - 1);
        }
    }
}

/// A key clears the optional lower bound.
spec fn key_above(lower: Option<Seq<char>>, k: Seq<char>) -> bool {
    match lower {
        Some(l) => lex_lt(l, k),
        None => true,
    }
}

proof fn lemma_min_above(cs: Seq<MatchedCitationV>, gk: (Seq<char>, int), lower: Option<Seq<char>>, j: int)
    requires
        exists|p: int|
            0 <= p < j && #[trigger] first_rep(cs, gk, p) && key_above(lower, cs[p].entry.key),
    ensures
        exists|p: int|
            {
                &&& 0 <= p < j
                &&& #[trigger] first_rep(cs, gk, p)
                &&& key_above(lower, cs[p].entry.key)
                &&& forall|q: int|
                    0 <= q < j && #[trigger] first_rep(cs, gk, q) && key_above(
                        lower,
                        cs[q].entry.key,
                    ) ==> !lex_lt(cs[q].entry.key, cs[p].entry.key)
            },
    decreases j,
{
    let w = choose|p: int|
        0 <= p < j && #[trigger] first_rep(cs, gk, p) && key_above(lower, cs[p].entry.key);
    if exists|p: int|
        0 <= p < j - 1 && #[trigger] first_rep(cs, gk, p) && key_above(lower, cs[p].entry.key) {
        lemma_min_above(cs, gk, lower, j - 1);
        let p0 = choose|p: int|
            {
                &&& 0 <= p < j - 1
                &&& #[trigger] first_rep(cs, gk, p)
                &&& key_above(lower, cs[p].entry.key)
                &&& forall|q: int|
                    0 <= q < j - 1 && #[trigger] first_rep(cs, gk, q) && key_above(
                        lower,
                        cs[q].entry.key,
                    ) ==> !lex_lt(cs[q].entry.key, cs[p].entry.key)
            };
        if first_rep(cs, gk, j - 1) && key_above(lower, cs[j - 1].entry.key) && lex_lt(
            cs[j - 1].entry.key,
            cs[p0].entry.key,
        ) {
            assert forall|q: int|
                0 <= q < j && #[trigger] first_rep(cs, gk, q) && key_above(
                    lower,
                    cs[q].entry.key,
                ) implies !lex_lt(cs[q].entry.key, cs[j - 1].entry.key) by {
                if q < j - 1 && lex_lt(cs[q].entry.key, cs[j - 1].entry.key) {
                    crate::text::lemma_lex_transitive(
                        cs[q].entry.key,
                        cs[j - 1].entry.key,
                        cs[p0].entry.key,
                    );
                }
                if q == j - 1 {
                    crate::text::lemma_lex_trichotomy(cs[q].entry.key, cs[q].entry.key);
                }
            }
            assert(0 <= j - 1 < j && first_rep(cs, gk, j - 1) && key_above(
                lower,
                cs[j - 1].entry.key,
            ));
        } else {
            assert forall|q: int|
                0 <= q < j && #[trigger] first_rep(cs, gk, q) && key_above(
                    lower,
                    cs[q].entry.key,
                ) implies !lex_lt(cs[q].entry.key, cs[p0].entry.key) by {}
            assert(0 <= p0 < j && first_rep(cs, gk, p0) && key_above(lower, cs[p0].entry.key));
        }
    } else {
        // the witness can only stand at the last position
        assert(w == j - 1);
        assert forall|q: int|
            0 <= q < j && #[trigger] first_rep(cs, gk, q) && key_above(
                lower,
                cs[q].entry.key,
            ) implies !lex_lt(cs[q].entry.key, cs[w].entry.key) by {
            if q < j - 1 {
                assert(false);
            } else {
                crate::text::lemma_lex_trichotomy(cs[q].entry.key, cs[q].entry.key);
            }
        }
    }
}

proof fn lemma_smaller_zero(cs: Seq<MatchedCitationV>, gk: (Seq<char>, int), key: Seq<char>, j: int)
    requires
        forall|q: int|
            0 <= q < j && #[trigger] first_rep(cs, gk, q) ==> !lex_lt(cs[q].entry.key, key),
    ensures
        count_smaller_upto(cs, gk, key, j) == 0,
    decreases j,
{
    if j > 0 {
        lemma_smaller_zero(cs, gk, key, j - 1);
    }
}

proof fn lemma_smaller_shift(
    cs: Seq<MatchedCitationV>,
    gk: (Seq<char>, int),
    k1: Seq<char>,
    k2: Seq<char>,
    j: int,
)
    requires
        j >= 0,
        lex_lt(k1, k2),
        forall|q: int|
            0 <= q < j && #[trigger] first_rep(cs, gk, q) ==> !(lex_lt(k1, cs[q].entry.key)
                && lex_lt(cs[q].entry.key, k2)),
    ensures
        count_smaller_upto(cs, gk, k2, j) == count_smaller_upto(cs, gk, k1, j) + count_eq_upto(
            cs,
            gk,
            k1,
            j,
        ),
    decreases j,
{
    if j > 0 {
        lemma_smaller_shift(cs, gk, k1, k2, j - 1);
        if first_rep(cs, gk, j - 1) {
            let kq = cs[j - 1].entry.key;
            crate::text::lemma_lex_trichotomy(kq, k1);
            if lex_lt(kq, k1) {
                crate::text::lemma_lex_transitive(kq, k1, k2);
            }
        }
    }
}

/// Every suffix position below the group's size is taken: together with
/// [`lemma_suffix_assignment`] and [`lemma_suffix_order_and_uniqueness`],
/// the suffixes of a group of N distinct entries are exactly the first N
/// suffixes, assigned gap-free in ascending key order.
pub proof fn lemma_suffix_surjective(cs: Seq<MatchedCitationV>, gk: (Seq<char>, int), r: int)
    requires
        0 <= r < group_size(cs, gk),
    ensures
        exists|j: int|
            0 <= j < cs.len() && #[trigger] first_rep(cs, gk, j) && suffix_index(
                cs,
                gk,
                cs[j].entry.key,
            ) == r,
    decreases r,
{
    let n = cs.len() as int;
    if r == 0 {
        lemma_reps_pos_exists(cs, gk, n);
        lemma_min_above(cs, gk, None, n);
        let p = choose|p: int|
            {
                &&& 0 <= p < n
                &&& #[trigger] first_rep(cs, gk, p)
                &&& key_above(None, cs[p].entry.key)
                &&& forall|q: int|
                    0 <= q < n && #[trigger] first_rep(cs, gk, q) && key_above(
                        None,
                        cs[q].entry.key,
                    ) ==> !lex_lt(cs[q].entry.key, cs[p].entry.key)
            };
        lemma_smaller_zero(cs, gk, cs[p].entry.key, n);
        assert(first_rep(cs, gk, p) && suffix_index(cs, gk, cs[p].entry.key) == 0);
    } else {
        lemma_suffix_surjective(cs, gk, r - 1);
        let p = choose|j: int|
            0 <= j < cs.len() && #[trigger] first_rep(cs, gk, j) && suffix_index(
                cs,
                gk,
                cs[j].entry.key,
            ) == r - 1;
        let k1 = cs[p].entry.key;
        lemma_eq_shape(cs, gk, k1, n);
        assert(count_eq_upto(cs, gk, k1, n) == 1);
        lemma_rep_partition(cs, gk, k1, n);
        assert(count_greater_upto(cs, gk, k1, n) > 0);
        lemma_greater_pos_exists(cs, gk, k1, n);
        lemma_min_above(cs, gk, Some(k1), n);
        let p2 = choose|p2: int|
            {
                &&& 0 <= p2 < n
                &&& #[trigger] first_rep(cs, gk, p2)
                &&& key_above(Some(k1), cs[p2].entry.key)
                &&& forall|q: int|
                    0 <= q < n && #[trigger] first_rep(cs, gk, q) && key_above(
                        Some(k1),
                        cs[q].entry.key,
                    ) ==> !lex_lt(cs[q].entry.key, cs[p2].entry.key)
            };
        let k2 = cs[p2].entry.key;
        assert forall|q: int|
            0 <= q < n && #[trigger] first_rep(cs, gk, q) implies !(lex_lt(k1, cs[q].entry.key)
            && lex_lt(cs[q].entry.key, k2)) by {
            if lex_lt(k1, cs[q].entry.key) && lex_lt(cs[q].entry.key, k2) {
                assert(key_above(Some(k1), cs[q].entry.key));
                assert(!lex_lt(cs[q].entry.key, k2));
            }
        }
        lemma_smaller_shift(cs, gk, k1, k2, n);
        assert(first_rep(cs, gk, p2) && suffix_index(cs, gk, cs[p2].entry.key) == r);
    }
}

/// The three author-formatting shapes, written out: one author inverted,
/// two authors with only the first inverted, three or more shortened to
/// `et al.`.
pub proof fn lemma_author_formatting(a: Seq<crate::bibliography::PersonV>)
    ensures
        a.len() == 1 ==> authors_text(a) == a[0].name + ", "@ + a[0].given_name + ". "@,
        a.len() == 2 ==> authors_text(a) == a[0].name + ", "@ + a[0].given_name + " and "@
            + a[1].given_name + " "@ + a[1].name + ". "@,
        a.len() >= 3 ==> authors_text(a) == a[0].name + ", "@ + a[0].given_name + " et al. "@,
{
}

/// The run is ascending by key: no later element has a smaller key.
pub open spec fn sorted_by_entry_key(s: Seq<MatchedCitationDisambiguatedV>) -> bool {
    forall|i: int, j: int|
        0 <= i < j < s.len() ==> !lex_lt(
            entry_sort_key(#[trigger] s[j]),
            entry_sort_key(#[trigger] s[i]),
        )
}

/// First position of the run whose key is greater than `k`, at or after
/// `i`.
spec fn first_gt(s: Seq<MatchedCitationDisambiguatedV>, k: Seq<char>, i: int) -> int
    decreases s.len() - i,
{
    if i < 0 || i >= s.len() {
        s.len() as int
    } else if lex_lt(k, entry_sort_key(s[i])) {
        i
    } else {
        first_gt(s, k, i + 1)
    }
}

proof fn lemma_first_gt_bounds(s: Seq<MatchedCitationDisambiguatedV>, k: Seq<char>, i: int)
    requires
        0 <= i <= s.len(),
    ensures
        i <= first_gt(s, k, i) <= s.len(),
        first_gt(s, k, i) < s.len() ==> lex_lt(k, entry_sort_key(s[first_gt(s, k, i)])),
        forall|t: int| i <= t < first_gt(s, k, i) ==> !lex_lt(k, entry_sort_key(#[trigger] s[t])),
    decreases s.len() - i,
{
    if i < s.len() && !lex_lt(k, entry_sort_key(s[i])) {
        lemma_first_gt_bounds(s, k, i + 1);
    }
}

proof fn lemma_insert_stable_sorted(s: Seq<MatchedCitationDisambiguatedV>, m: MatchedCitationDisambiguatedV)
    requires
        sorted_by_entry_key(s),
    ensures
        sorted_by_entry_key(insert_stable(s, m)),
        insert_stable(s, m).len() == s.len() + 1,
        insert_stable(s, m).to_multiset() == s.to_multiset().insert(m),
{
    let k = entry_sort_key(m);
    lemma_first_gt_bounds(s, k, 0);
    let q = first_gt(s, k, 0);
    assert forall|idx: int| q <= idx < s.len() implies lex_lt(
        k,
        entry_sort_key(#[trigger] s[idx]),
    ) by {
        if idx > q {
            // ascending: the key at q is not above the key at idx
            assert(!lex_lt(entry_sort_key(s[idx]), entry_sort_key(s[q])));
            crate::text::lemma_lex_trichotomy(entry_sort_key(s[idx]), entry_sort_key(s[q]));
            if entry_sort_key(s[idx]) == entry_sort_key(s[q]) {
            } else {
                crate::text::lemma_lex_transitive(k, entry_sort_key(s[q]), entry_sort_key(s[idx]));
            }
        }
    }
    lemma_insert_stable_at(s, m, q);
    let r = insert_stable(s, m);
    assert(r == s.subrange(0, q) + seq![m] + s.subrange(q, s.len() as int));
    assert forall|i: int, j: int| 0 <= i < j < r.len() implies !lex_lt(
        entry_sort_key(#[trigger] r[j]),
        entry_sort_key(#[trigger] r[i]),
    ) by {
        let ki = entry_sort_key(r[i]);
        let kj = entry_sort_key(r[j]);
        if i < q && j < q {
            assert(r[i] == s[i] && r[j] == s[j]);
        } else if i < q && j == q {
            assert(r[i] == s[i] && r[j] == m);
            assert(!lex_lt(k, entry_sort_key(s[i])));
            // k is not below s[i]'s key, so m does not sort below it
            crate::text::lemma_lex_trichotomy(k, entry_sort_key(s[i]));
        } else if i < q && j > q {
            assert(r[i] == s[i] && r[j] == s[j - 1]);
        } else if i == q {
            assert(r[i] == m && r[j] == s[j - 1]);
            assert(lex_lt(k, entry_sort_key(s[j - 1])));
            crate::text::lemma_lex_trichotomy(k, entry_sort_key(s[j - 1]));
        } else {
            assert(r[i] == s[i - 1] && r[j] == s[j - 1]);
        }
    }
    assert(r.to_multiset() == s.to_multiset().insert(m)) by {
        broadcast use vstd::seq_lib::group_to_multiset_ensures;
        broadcast use vstd::multiset::group_multiset_axioms;

        let pre = s.subrange(0, q);
        let post = s.subrange(q, s.len() as int);
        assert(r =~= (pre + seq![m]) + post);
        vstd::seq_lib::lemma_multiset_commutative(pre + seq![m], post);
        vstd::seq_lib::lemma_multiset_commutative(pre, post);
        assert(pre + post =~= s);
        assert(pre + seq![m] =~= pre.push(m));
        assert(pre.push(m).to_multiset() =~= pre.to_multiset().insert(m));
        assert(r.to_multiset() =~= s.to_multiset().insert(m));
    }
}

/// The bibliography order law: the stable sort arranges the entry lines
/// ascending by lowercased first-author surname, keeps exactly the input
/// lines, and an entry without authors — whose key is the empty string —
/// can only stand before entries with one.
pub proof fn lemma_bibliography_sorted(s: Seq<MatchedCitationDisambiguatedV>)
    ensures
        sorted_by_entry_key(stable_sorted(s)),
        stable_sorted(s).len() == s.len(),
        stable_sorted(s).to_multiset() == s.to_multiset(),
    decreases s.len(),
{
    if s.len() == 0 {
        assert(stable_sorted(s) =~= s);
    } else {
        let t = s.drop_last();
        lemma_bibliography_sorted(t);
        lemma_insert_stable_sorted(stable_sorted(t), s.last());
        assert(stable_sorted(s).to_multiset() == stable_sorted(t).to_multiset().insert(s.last()));
        assert(stable_sorted(s).to_multiset() == t.to_multiset().insert(s.last()));
        vstd::seq_lib::to_multiset_build(t, s.last());
        assert(t.push(s.last()).to_multiset() == t.to_multiset().insert(s.last()));
        assert(t.push(s.last()) =~= s);
    }
}

} // verus!
