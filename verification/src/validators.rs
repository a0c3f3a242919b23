//! Verification of documents: metadata records, citation format checks,
//! de-duplication, and matching of citations against the bibliography.
//! Reading files and parsing the metadata header belong to the I/O layer;
//! the functions here consume the already-loaded values.

use vstd::prelude::*;

use crate::bibliography::{Entry, EntryV, surname_of_entry, year_of_entry};
use crate::errors::CitationError;
use crate::text::{
    before_char, chars_to_string, find_sub, has_year_token, int_rep, is_wspace, str_to_chars,
    subvec, trim, trim_exec,
};

verus! {

/// Verified metadata of an article: the index title is present.
#[derive(Debug, Clone)]
pub struct Metadata {
    pub title: String,
    pub index_title: String,
    pub description: String,
    pub is_article: bool,
    pub authors: Option<String>,
    pub editors: Option<String>,
    pub contributors: Option<String>,
}

/// The view of a [`Metadata`].
#[verifier::ext_equal]
pub struct MetadataV {
    pub title: Seq<char>,
    pub index_title: Seq<char>,
    pub description: Seq<char>,
    pub is_article: bool,
    pub authors: Option<Seq<char>>,
    pub editors: Option<Seq<char>>,
    pub contributors: Option<Seq<char>>,
}

impl View for Metadata {
    type V = MetadataV;

    open spec fn view(&self) -> MetadataV {
        MetadataV {
            title: self.title@,
            index_title: self.index_title@,
            description: self.description@,
            is_article: self.is_article,
            authors: match self.authors {
                Some(a) => Some(a@),
                None => None,
            },
            editors: match self.editors {
                Some(e) => Some(e@),
                None => None,
            },
            contributors: match self.contributors {
                Some(c) => Some(c@),
                None => None,
            },
        }
    }
}

/// Metadata as parsed from a document header: the index title may be
/// missing.
#[derive(Debug, Clone)]
pub struct MetadataUnverified {
    pub title: String,
    pub index_title: Option<String>,
    pub description: String,
    pub is_article: bool,
    pub authors: Option<String>,
    pub editors: Option<String>,
    pub contributors: Option<String>,
}

/// The view of a [`MetadataUnverified`].
#[verifier::ext_equal]
pub struct MetadataUnverifiedV {
    pub title: Seq<char>,
    pub index_title: Option<Seq<char>>,
    pub description: Seq<char>,
    pub is_article: bool,
    pub authors: Option<Seq<char>>,
    pub editors: Option<Seq<char>>,
    pub contributors: Option<Seq<char>>,
}

impl View for MetadataUnverified {
    type V = MetadataUnverifiedV;

    open spec fn view(&self) -> MetadataUnverifiedV {
        MetadataUnverifiedV {
            title: self.title@,
            index_title: match self.index_title {
                Some(t) => Some(t@),
                None => None,
            },
            description: self.description@,
            is_article: self.is_article,
            authors: match self.authors {
                Some(a) => Some(a@),
                None => None,
            },
            editors: match self.editors {
                Some(e) => Some(e@),
                None => None,
            },
            contributors: match self.contributors {
                Some(c) => Some(c@),
                None => None,
            },
        }
    }
}

/// A citation bound to the single bibliography entry it resolved to.
#[derive(Debug)]
pub struct MatchedCitation {
    /// The citation as it stood in the text, e.g. `@hegel2020logic, 123`
    /// or `Hegel 2020`.
    pub citation_raw: String,
    /// The bibliography entry it matched.
    pub entry: Entry,
}

/// The view of a [`MatchedCitation`].
#[verifier::ext_equal]
pub struct MatchedCitationV {
    pub citation_raw: Seq<char>,
    pub entry: EntryV,
}

impl View for MatchedCitation {
    type V = MatchedCitationV;

    open spec fn view(&self) -> MatchedCitationV {
        MatchedCitationV { citation_raw: self.citation_raw@, entry: self.entry@ }
    }
}

impl DeepView for MatchedCitation {
    type V = MatchedCitationV;

    open spec fn deep_view(&self) -> MatchedCitationV {
        self.view()
    }
}

/// A matched citation together with its disambiguated forms.
#[derive(Debug)]
pub struct MatchedCitationDisambiguated {
    /// The citation as it stood in the text.
    pub citation_raw: String,
    /// The context-aware display form, e.g. `Hegel 2020a`.
    pub citation_author_date_disambiguated: String,
    /// The disambiguated year string, e.g. `2020a`.
    pub year_disambiguated: String,
    /// The bibliography entry it matched.
    pub entry: Entry,
}

/// The view of a [`MatchedCitationDisambiguated`].
#[verifier::ext_equal]
pub struct MatchedCitationDisambiguatedV {
    pub citation_raw: Seq<char>,
    pub citation_author_date_disambiguated: Seq<char>,
    pub year_disambiguated: Seq<char>,
    pub entry: EntryV,
}

impl View for MatchedCitationDisambiguated {
    type V = MatchedCitationDisambiguatedV;

    open spec fn view(&self) -> MatchedCitationDisambiguatedV {
        MatchedCitationDisambiguatedV {
            citation_raw: self.citation_raw@,
            citation_author_date_disambiguated: self.citation_author_date_disambiguated@,
            year_disambiguated: self.year_disambiguated@,
            entry: self.entry@,
        }
    }
}

impl DeepView for MatchedCitationDisambiguated {
    type V = MatchedCitationDisambiguatedV;

    open spec fn deep_view(&self) -> MatchedCitationDisambiguatedV {
        self.view()
    }
}

impl MatchedCitationDisambiguated {
    /// An explicit copy with a known view.
    pub fn duplicate(&self) -> (r: MatchedCitationDisambiguated)
        ensures
            r@ == self@,
    {
        MatchedCitationDisambiguated {
            citation_raw: self.citation_raw.clone(),
            citation_author_date_disambiguated: self.citation_author_date_disambiguated.clone(),
            year_disambiguated: self.year_disambiguated.clone(),
            entry: self.entry.duplicate(),
        }
    }
}

/// One document as loaded from disk: its path, parsed metadata header,
/// body text, and the full original file content.
#[derive(Debug)]
pub struct MdxDocument {
    pub path: String,
    pub metadata: MetadataUnverified,
    pub markdown_content: String,
    pub full_file_content: String,
}

/// The view of an [`MdxDocument`].
#[verifier::ext_equal]
pub struct MdxDocumentV {
    pub path: Seq<char>,
    pub metadata: MetadataUnverifiedV,
    pub markdown_content: Seq<char>,
    pub full_file_content: Seq<char>,
}

impl View for MdxDocument {
    type V = MdxDocumentV;

    open spec fn view(&self) -> MdxDocumentV {
        MdxDocumentV {
            path: self.path@,
            metadata: self.metadata@,
            markdown_content: self.markdown_content@,
            full_file_content: self.full_file_content@,
        }
    }
}

impl DeepView for MdxDocument {
    type V = MdxDocumentV;

    open spec fn deep_view(&self) -> MdxDocumentV {
        self.view()
    }
}

/// One verified article: metadata, body, resolved citations, and the full
/// original file content.
#[derive(Debug)]
pub struct ArticleFileData {
    /// Path to the file whose contents were extracted.
    pub path: String,
    /// Metadata enclosed at the top of the file.
    pub metadata: Metadata,
    /// Contents of the file after the metadata header.
    pub markdown_content: String,
    /// The resolved, disambiguated citations of the file.
    pub entries_disambiguated: Vec<MatchedCitationDisambiguated>,
    /// Original contents of the file, metadata included.
    pub full_file_content: String,
}

/// The view of an [`ArticleFileData`].
#[verifier::ext_equal]
pub struct ArticleFileDataV {
    pub path: Seq<char>,
    pub metadata: MetadataV,
    pub markdown_content: Seq<char>,
    pub entries_disambiguated: Seq<MatchedCitationDisambiguatedV>,
    pub full_file_content: Seq<char>,
}

impl View for ArticleFileData {
    type V = ArticleFileDataV;

    open spec fn view(&self) -> ArticleFileDataV {
        ArticleFileDataV {
            path: self.path@,
            metadata: self.metadata@,
            markdown_content: self.markdown_content@,
            entries_disambiguated: self.entries_disambiguated.deep_view(),
            full_file_content: self.full_file_content@,
        }
    }
}

impl DeepView for ArticleFileData {
    type V = ArticleFileDataV;

    open spec fn deep_view(&self) -> ArticleFileDataV {
        self.view()
    }
}

/// An article before its metadata has been verified.
#[derive(Debug)]
pub struct ArticleFileDataUnverified {
    pub path: String,
    pub metadata: MetadataUnverified,
    pub markdown_content: String,
    pub entries_disambiguated: Vec<MatchedCitationDisambiguated>,
    pub full_file_content: String,
}

impl ArticleFileData {
    /// Promotes an unverified article, requiring its index title to be
    /// present; a missing index title names the article's path.
    pub fn try_from(article: ArticleFileDataUnverified) -> (r: Result<ArticleFileData, String>)
        ensures
            match r {
                Ok(a) => {
                    &&& article.metadata.index_title matches Some(t) && a.metadata.index_title@
                        == t@
                    &&& a.path@ == article.path@
                    &&& a.metadata.title@ == article.metadata.title@
                    &&& a.metadata.description@ == article.metadata.description@
                    &&& a.metadata.is_article == article.metadata.is_article
                    &&& a.metadata@.authors == article.metadata@.authors
                    &&& a.metadata@.editors == article.metadata@.editors
                    &&& a.metadata@.contributors == article.metadata@.contributors
                    &&& a.markdown_content@ == article.markdown_content@
                    &&& a.entries_disambiguated.deep_view()
                        == article.entries_disambiguated.deep_view()
                    &&& a.full_file_content@ == article.full_file_content@
                },
                Err(m) => article.metadata.index_title is None && m@
                    == "Missing `index_title` for article at path: "@ + article.path@,
            },
    {
        match article.metadata.index_title {
            Some(title) => Ok(
                ArticleFileData {
                    path: article.path,
                    metadata: Metadata {
                        title: article.metadata.title,
                        index_title: title,
                        description: article.metadata.description,
                        is_article: article.metadata.is_article,
                        authors: article.metadata.authors,
                        editors: article.metadata.editors,
                        contributors: article.metadata.contributors,
                    },
                    markdown_content: article.markdown_content,
                    entries_disambiguated: article.entries_disambiguated,
                    full_file_content: article.full_file_content,
                },
            ),
            None => {
                let mut msg = str_to_chars("Missing `index_title` for article at path: ");
                let path_chars = str_to_chars(article.path.as_str());
                crate::text::push_all(&mut msg, &path_chars);
                Err(chars_to_string(&msg))
            },
        }
    }
}

/// The running parenthesis balance of a text: opening adds one, closing
/// subtracts one.
pub open spec fn paren_balance(s: Seq<char>) -> int
    decreases s.len(),
{
    if s.len() == 0 {
        0
    } else {
        paren_balance(s.drop_last()) + if s.last() == '(' {
            1int
        } else if s.last() == ')' {
            -1int
        } else {
            0int
        }
    }
}

/// A text is balanced when no prefix closes more parentheses than were
/// opened, and all opened ones are closed.
pub open spec fn parens_balanced(s: Seq<char>) -> bool {
    &&& paren_balance(s) == 0
    &&& forall|i: int| 0 <= i <= s.len() ==> paren_balance(#[trigger] s.subrange(0, i)) >= 0
}

/// Checks whether the parentheses of a document body are balanced.
pub fn check_parentheses_balance(markdown: &String) -> (r: bool)
    ensures
        r == parens_balanced(markdown@),
{
    let chars = str_to_chars(markdown.as_str());
    let mut balance: u64 = 0;
    let mut i: usize = 0;
    while i < chars.len()
        invariant
            i <= chars.len(),
            chars@ == markdown@,
            balance <= i,
            balance as int == paren_balance(markdown@.subrange(0, i as int)),
            forall|k: int|
                0 <= k <= i ==> paren_balance(#[trigger] markdown@.subrange(0, k)) >= 0,
        decreases chars.len() - i,
    {
        let c = chars[i];
        proof {
            let sub = markdown@.subrange(0, i + 1);
            assert(sub.drop_last() =~= markdown@.subrange(0, i as int));
            assert(sub.last() == markdown@[i as int]);
        }
        if c == '(' {
            balance += 1;
        } else if c == ')' {
            if balance == 0 {
                proof {
                    assert(paren_balance(markdown@.subrange(0, i + 1)) < 0);
                }
                return false;
            }
            balance -= 1;
        }
        i += 1;
    }
    proof {
        assert(markdown@.subrange(0, markdown@.len() as int) =~= markdown@);
    }
    balance == 0
}

/// A citation is well-formed when it is an explicit key reference or its
/// part before any comma carries a year token.
pub open spec fn cit_ok(c: Seq<char>) -> bool {
    (c.len() > 0 && c[0] == '@') || has_year_token(before_char(c, ','))
}

/// Verifies the format of extracted citations: each must be an explicit
/// key reference or carry a year in `[1000, 9999]` before any comma. The
/// first offender is named in the error.
pub fn verify_citations_format(citations: &Vec<String>) -> (r: Result<(), String>)
    ensures
        match r {
            Ok(_) => forall|i: int|
                0 <= i < citations.deep_view().len() ==> cit_ok(#[trigger] citations.deep_view()[i]),
            Err(m) => exists|i: int|
                {
                    &&& 0 <= i < citations.deep_view().len()
                    &&& !cit_ok(#[trigger] citations.deep_view()[i])
                    &&& forall|j: int| 0 <= j < i ==> cit_ok(#[trigger] citations.deep_view()[j])
                    &&& m@ == "Citation is malformed or is missing year: ("@
                        + citations.deep_view()[i] + ")"@
                },
        },
{
    let mut i: usize = 0;
    while i < citations.len()
        invariant
            i <= citations.len(),
            forall|j: int| 0 <= j < i ==> cit_ok(#[trigger] citations.deep_view()[j]),
        decreases citations.len() - i,
    {
        let chars = str_to_chars(citations[i].as_str());
        let is_key = chars.len() > 0 && chars[0] == '@';
        if !is_key {
            let first_part = crate::text::before_char_exec(&chars, ',');
            if !crate::text::has_year_token_exec(&first_part) {
                proof {
                    assert(!cit_ok(citations.deep_view()[i as int]));
                }
                let mut msg = str_to_chars("Citation is malformed or is missing year: (");
                crate::text::push_all(&mut msg, &chars);
                msg.push(')');
                proof {
                    reveal_strlit(")");
                    assert(citations.deep_view()[i as int] == citations@[i as int]@);
                    assert(msg@ =~= "Citation is malformed or is missing year: ("@
                        + citations.deep_view()[i as int] + ")"@);
                }
                return Err(chars_to_string(&msg));
            }
        }
        proof {
            assert(cit_ok(citations.deep_view()[i as int]));
        }
        i += 1;
    }
    Ok(())
}

/// The de-duplicated citation set: each citation is cut before its first
/// comma, and only the first occurrence of each resulting identity is
/// kept, in order of first appearance.
pub open spec fn citations_set(cs: Seq<Seq<char>>) -> Seq<Seq<char>>
    decreases cs.len(),
{
    if cs.len() == 0 {
        seq![]
    } else {
        let prev = citations_set(cs.drop_last());
        let prepared = before_char(cs.last(), ',');
        if prev.contains(prepared) {
            prev
        } else {
            prev.push(prepared)
        }
    }
}

/// Reduces a list of citations to the de-duplicated set used for
/// matching: the page locator after a comma is not part of a citation's
/// identity.
pub fn create_citations_set(citations: Vec<String>) -> (r: Vec<String>)
    ensures
        r.deep_view() == citations_set(citations.deep_view()),
{
    let mut out: Vec<String> = Vec::new();
    let mut i: usize = 0;
    proof {
        assert(citations.deep_view().subrange(0, 0) =~= Seq::<Seq<char>>::empty());
        assert(out.deep_view() =~= citations_set(citations.deep_view().subrange(0, 0)));
    }
    while i < citations.len()
        invariant
            i <= citations.len(),
            out.deep_view() == citations_set(citations.deep_view().subrange(0, i as int)),
        decreases citations.len() - i,
    {
        let chars = str_to_chars(citations[i].as_str());
        let prepared = crate::text::before_char_exec(&chars, ',');
        let mut seen = false;
        let mut j: usize = 0;
        while j < out.len()
            invariant
                j <= out.len(),
                prepared@ == before_char(citations.deep_view()[i as int], ','),
                i < citations.deep_view().len(),
                seen ==> out.deep_view().contains(prepared@),
                !seen ==> forall|k: int| 0 <= k < j ==> out.deep_view()[k] != prepared@,
            decreases out.len() - j,
        {
            let existing = str_to_chars(out[j].as_str());
            if crate::text::chars_eq(&existing, &prepared) {
                proof {
                    assert(out.deep_view()[j as int] == prepared@);
                }
                seen = true;
            }
            j += 1;
        }
        let ghost dv = citations.deep_view();
        let ghost prev_set = out.deep_view();
        if !seen {
            out.push(chars_to_string(&prepared));
        }
        proof {
            let sub = dv.subrange(0, i + 1);
            assert(sub.drop_last() =~= dv.subrange(0, i as int));
            assert(sub.last() == dv[i as int]);
            if !seen {
                assert(!prev_set.contains(before_char(dv[i as int], ',')));
                assert(out.deep_view() =~~= prev_set.push(before_char(dv[i as int], ',')));
            } else {
                assert(prev_set.contains(before_char(dv[i as int], ',')));
            }
            assert(out.deep_view() =~= citations_set(sub));
        }
        i += 1;
    }
    proof {
        assert(citations.deep_view().subrange(0, citations.deep_view().len() as int)
            =~= citations.deep_view());
    }
    out
}

/// The key named by an explicit-key citation: the part before any comma,
/// trimmed, without its `@`.
pub open spec fn citation_key(c: Seq<char>) -> Seq<char> {
    trim(before_char(c, ',')).drop_first()
}

/// The author-year identity of an entry, `Surname Year`, when the entry
/// has both an author and a resolvable year.
pub open spec fn author_year_of(e: EntryV) -> Option<Seq<char>> {
    match (surname_of_entry(e), year_of_entry(e)) {
        (Some(s), Some(y)) => Some(s + seq![' '] + int_rep(y)),
        _ => None,
    }
}

/// Whether a citation resolves to an entry: an explicit key citation
/// matches the entry's key exactly; an author-year citation matches the
/// entry's `Surname Year` identity. An entry without author or year never
/// matches an author-year citation.
pub open spec fn entry_matches(c: Seq<char>, e: EntryV) -> bool {
    if c.len() > 0 && c[0] == '@' {
        citation_key(c) == e.key
    } else {
        author_year_of(e) == Some(c)
    }
}

/// Index of the first entry of the bibliography, at or after `i`, that a
/// citation resolves to.
pub open spec fn first_match(bib: Seq<EntryV>, c: Seq<char>, i: int) -> Option<int>
    decreases bib.len() - i,
{
    if i < 0 || i >= bib.len() {
        None
    } else if entry_matches(c, bib[i]) {
        Some(i)
    } else {
        first_match(bib, c, i + 1)
    }
}

/// Executable test for [`entry_matches`].
fn citation_matches_entry(c: &Vec<char>, e: &Entry) -> (r: bool)
    ensures
        r == entry_matches(c@, e@),
{
    if c.len() > 0 && c[0] == '@' {
        let first_part = crate::text::before_char_exec(c, ',');
        let trimmed = trim_exec(&first_part);
        proof {
            let before = before_char(c@, ',');
            if crate::text::find_char(c@, ',', 0) is Some {
                crate::text::lemma_find_char_bounds(c@, ',', 0);
            }
            assert(before.len() > 0 && before[0] == '@');
            lemma_trim_nonws_head(before);
        }
        let key = subvec(&trimmed, 1, trimmed.len());
        proof {
            assert(key@ =~= trim(before_char(c@, ',')).drop_first());
        }
        let entry_key = str_to_chars(e.key.as_str());
        crate::text::chars_eq(&key, &entry_key)
    } else {
        match &e.authors {
            Some(authors) => {
                if authors.len() == 0 {
                    return false;
                }
                let year: i64 = match &e.date {
                    Some(crate::bibliography::PermissiveType::Typed(d)) => match d.value {
                        crate::bibliography::DateValue::At(y) => y as i64,
                        crate::bibliography::DateValue::After(y) => y as i64,
                        crate::bibliography::DateValue::Before(y) => y as i64,
                        crate::bibliography::DateValue::Between(y, _end) => y as i64,
                    },
                    _ => {
                        proof {
                            assert(year_of_entry(e@) is None);
                        }
                        return false;
                    },
                };
                let mut ay = str_to_chars(authors[0].name.as_str());
                ay.push(' ');
                crate::text::push_i64_dec(&mut ay, year);
                proof {
                    assert(author_year_of(e@) matches Some(s) && ay@ =~= s);
                }
                crate::text::chars_eq(&ay, c)
            },
            None => false,
        }
    }
}

/// Executable search for [`first_match`].
fn find_first_match(c: &Vec<char>, bib: &Vec<Entry>) -> (r: Option<usize>)
    ensures
        match r {
            Some(j) => first_match(bib.deep_view(), c@, 0) == Some(j as int) && j < bib@.len(),
            None => first_match(bib.deep_view(), c@, 0) is None,
        },
{
    let mut j: usize = 0;
    while j < bib.len()
        invariant
            j <= bib.len(),
            first_match(bib.deep_view(), c@, 0) == first_match(bib.deep_view(), c@, j as int),
        decreases bib.len() - j,
    {
        if citation_matches_entry(c, &bib[j]) {
            proof {
                assert(bib.deep_view()[j as int] == bib@[j as int]@);
            }
            return Some(j);
        }
        proof {
            assert(bib.deep_view()[j as int] == bib@[j as int]@);
        }
        j += 1;
    }
    None
}

/// A citation that no bibliography entry resolves.
pub open spec fn unmatched(bib: Seq<EntryV>, c: Seq<char>) -> bool {
    first_match(bib, c, 0) is None
}

/// Matches each citation of the de-duplicated set against the
/// bibliography; the first entry in bibliography order wins. When any
/// citation stays unresolved, the whole list of unresolved citations is
/// reported at once, in input order.
pub fn match_citations_to_bibliography(citations: Vec<String>, bibliography: &Vec<Entry>) -> (r:
    Result<Vec<MatchedCitation>, CitationError>)
    ensures
        match r {
            Ok(ms) => {
                &&& forall|i: int|
                    0 <= i < citations.deep_view().len() ==> !unmatched(
                        bibliography.deep_view(),
                        #[trigger] citations.deep_view()[i],
                    )
                &&& ms.deep_view().len() == citations.deep_view().len()
                &&& forall|i: int|
                    0 <= i < citations.deep_view().len() ==> {
                        &&& (#[trigger] ms.deep_view()[i]).citation_raw
                            == citations.deep_view()[i]
                        &&& first_match(bibliography.deep_view(), citations.deep_view()[i], 0)
                            matches Some(j) && ms.deep_view()[i].entry
                            == bibliography.deep_view()[j]
                    }
            },
            Err(e) => {
                &&& e@ matches crate::errors::CitationErrorV::UnmatchedCitations(u) && u
                    == citations.deep_view().filter(
                    |c: Seq<char>| unmatched(bibliography.deep_view(), c),
                ) && u.len() > 0
            },
        },
{
    let mut matched: Vec<MatchedCitation> = Vec::new();
    let mut unmatched_citations: Vec<String> = Vec::new();
    let ghost bibv = bibliography.deep_view();
    let ghost dv = citations.deep_view();
    let mut i: usize = 0;
    proof {
        reveal(Seq::filter);
        assert(dv.subrange(0, 0) =~= Seq::<Seq<char>>::empty());
        assert(unmatched_citations.deep_view() =~= dv.subrange(0, 0).filter(
            |c: Seq<char>| unmatched(bibv, c),
        ));
    }
    while i < citations.len()
        invariant
            i <= citations.len(),
            bibv == bibliography.deep_view(),
            dv == citations.deep_view(),
            unmatched_citations.deep_view() == dv.subrange(0, i as int).filter(
                |c: Seq<char>| unmatched(bibv, c),
            ),
            matched.deep_view().len() + unmatched_citations.deep_view().len() == i,
            unmatched_citations.deep_view().len() == 0 ==> forall|k: int|
                0 <= k < matched.deep_view().len() ==> {
                    &&& (#[trigger] matched.deep_view()[k]).citation_raw == dv[k]
                    &&& first_match(bibv, dv[k], 0) matches Some(j) && matched.deep_view()[k].entry
                        == bibv[j]
                },
            unmatched_citations.deep_view().len() == 0 ==> forall|k: int|
                0 <= k < i ==> !unmatched(bibv, #[trigger] dv[k]),
        decreases citations.len() - i,
    {
        let c_chars = str_to_chars(citations[i].as_str());
        let ghost prev_matched = matched.deep_view();
        let ghost prev_unmatched = unmatched_citations.deep_view();
        match find_first_match(&c_chars, bibliography) {
            Some(j) => {
                let m = MatchedCitation {
                    citation_raw: citations[i].clone(),
                    entry: bibliography[j].duplicate(),
                };
                matched.push(m);
                proof {
                    assert(matched.deep_view() =~~= prev_matched.push(
                        MatchedCitationV { citation_raw: dv[i as int], entry: bibv[j as int] },
                    ));
                }
            },
            None => {
                unmatched_citations.push(citations[i].clone());
                proof {
                    assert(unmatched_citations.deep_view() =~~= prev_unmatched.push(dv[i as int]));
                }
            },
        }
        proof {
            let pred = |c: Seq<char>| unmatched(bibv, c);
            let sub = dv.subrange(0, i + 1);
            assert(sub.drop_last() =~= dv.subrange(0, i as int));
            assert(sub.last() == dv[i as int]);
            reveal(Seq::filter);
            assert(unmatched_citations.deep_view() =~= sub.filter(pred));
        }
        i += 1;
    }
    proof {
        assert(dv.subrange(0, dv.len() as int) =~= dv);
    }
    if unmatched_citations.len() > 0 {
        return Err(CitationError::UnmatchedCitations(unmatched_citations));
    }
    proof {
        assert(matched.deep_view().len() == dv.len());
    }
    Ok(matched)
}

/// Splits a file's content at its metadata header: the text between the
/// first two `---` fences is the metadata, what follows the second fence
/// is the body. A file without two fences has no recognizable header.
pub fn split_front_matter(content: &str) -> (r: Option<(String, String)>)
    ensures
        match r {
            Some(parts) => {
                &&& find_sub(content@, "---"@, 0) matches Some(f1) && {
                    &&& find_sub(content@, "---"@, f1 + 3) matches Some(f2) && parts.0@
                        == content@.subrange(f1 + 3, f2) && parts.1@ == content@.subrange(
                        f2 + 3,
                        content@.len() as int,
                    )
                }
            },
            None => {
                ||| find_sub(content@, "---"@, 0) is None
                ||| (find_sub(content@, "---"@, 0) matches Some(f1) && find_sub(
                    content@,
                    "---"@,
                    f1 + 3,
                ) is None)
            },
        },
{
    let chars = str_to_chars(content);
    let fence = str_to_chars("---");
    proof {
        reveal_strlit("---");
        assert(fence@.len() == 3);
    }
    let f1 = match crate::text::find_sub_exec(&chars, &fence, 0) {
        Some(i) => i,
        None => {
            return None;
        },
    };
    proof {
        crate::text::lemma_find_sub_bounds(chars@, fence@, 0);
    }
    let f2 = match crate::text::find_sub_exec(&chars, &fence, f1 + 3) {
        Some(i) => i,
        None => {
            return None;
        },
    };
    proof {
        crate::text::lemma_find_sub_bounds(chars@, fence@, f1 + 3);
    }
    let metadata = subvec(&chars, f1 + 3, f2);
    let body = subvec(&chars, f2 + 3, chars.len());
    Some((chars_to_string(&metadata), chars_to_string(&body)))
}

/// Index of the first malformed citation, if any.
pub open spec fn first_bad_from(cs: Seq<Seq<char>>, i: int) -> Option<int>
    decreases cs.len() - i,
{
    if i < 0 || i >= cs.len() {
        None
    } else if !cit_ok(cs[i]) {
        Some(i)
    } else {
        first_bad_from(cs, i + 1)
    }
}

/// Executable search for [`first_bad_from`].
fn first_bad_citation(citations: &Vec<String>) -> (r: Option<usize>)
    ensures
        match r {
            Some(i) => first_bad_from(citations.deep_view(), 0) == Some(i as int) && i
                < citations@.len(),
            None => first_bad_from(citations.deep_view(), 0) is None,
        },
{
    let ghost dv = citations.deep_view();
    let mut i: usize = 0;
    while i < citations.len()
        invariant
            i <= citations@.len(),
            dv == citations.deep_view(),
            first_bad_from(dv, 0) == first_bad_from(dv, i as int),
        decreases citations@.len() - i,
    {
        let chars = str_to_chars(citations[i].as_str());
        let is_key = chars.len() > 0 && chars[0] == '@';
        let mut ok = is_key;
        if !is_key {
            let first_part = crate::text::before_char_exec(&chars, ',');
            ok = crate::text::has_year_token_exec(&first_part);
        }
        proof {
            assert(chars@ == dv[i as int]);
        }
        if !ok {
            proof {
                assert(!cit_ok(dv[i as int]));
            }
            return Some(i);
        }
        proof {
            assert(cit_ok(dv[i as int]));
        }
        i += 1;
    }
    None
}

/// What verifying one document yields: skipped (not an article), rejected
/// with an error, or a verified article.
#[verifier::ext_equal]
pub enum DocOutcome {
    Skipped,
    Rejected(crate::errors::VerifyErrorV),
    Verified(ArticleFileDataV),
}

/// The matched citations of a fully resolvable citation set.
pub open spec fn matched_of(bib: Seq<EntryV>, citations: Seq<Seq<char>>) -> Seq<MatchedCitationV> {
    Seq::new(
        citations.len(),
        |i: int| MatchedCitationV {
            citation_raw: citations[i],
            entry: bib[first_match(bib, citations[i], 0)->0],
        },
    )
}

/// The disambiguated forms of a list of matched citations, in order.
pub open spec fn disambiguated_all(cs: Seq<MatchedCitationV>) -> Seq<MatchedCitationDisambiguatedV> {
    Seq::new(cs.len(), |i: int| crate::transformers::disambiguated_of(cs, i))
}

/// The outcome of verifying one document against the bibliography: a
/// non-article is skipped; then unbalanced parentheses, a malformed
/// citation, unresolved citations, and a missing index title reject the
/// document, in that order; otherwise its citations are resolved and
/// disambiguated.
pub open spec fn doc_outcome(doc: MdxDocumentV, bib: Seq<EntryV>) -> DocOutcome {
    if !doc.metadata.is_article {
        DocOutcome::Skipped
    } else if !parens_balanced(doc.markdown_content) {
        DocOutcome::Rejected(
            crate::errors::VerifyErrorV::UnbalancedParentheses { path: doc.path },
        )
    } else {
        let citations = crate::scanner::extracted_citations(doc.markdown_content);
        match first_bad_from(citations, 0) {
            Some(i) => DocOutcome::Rejected(
                crate::errors::VerifyErrorV::MalformedCitation {
                    path: doc.path,
                    citation: citations[i],
                },
            ),
            None => {
                let set = citations_set(citations);
                let un = set.filter(|c: Seq<char>| unmatched(bib, c));
                if un.len() > 0 {
                    DocOutcome::Rejected(
                        crate::errors::VerifyErrorV::UnmatchedCitations {
                            path: doc.path,
                            citations: un,
                        },
                    )
                } else {
                    match doc.metadata.index_title {
                        Some(t) => DocOutcome::Verified(
                            ArticleFileDataV {
                                path: doc.path,
                                metadata: MetadataV {
                                    title: doc.metadata.title,
                                    index_title: t,
                                    description: doc.metadata.description,
                                    is_article: doc.metadata.is_article,
                                    authors: doc.metadata.authors,
                                    editors: doc.metadata.editors,
                                    contributors: doc.metadata.contributors,
                                },
                                markdown_content: doc.markdown_content,
                                entries_disambiguated: disambiguated_all(matched_of(bib, set)),
                                full_file_content: doc.full_file_content,
                            },
                        ),
                        None => DocOutcome::Rejected(
                            crate::errors::VerifyErrorV::MissingMetadataField { path: doc.path },
                        ),
                    }
                }
            },
        }
    }
}

/// The verified articles among the first `j` documents, in order.
pub open spec fn verified_upto(docs: Seq<MdxDocumentV>, bib: Seq<EntryV>, j: int) -> Seq<
    ArticleFileDataV,
>
    decreases j,
{
    if j <= 0 {
        seq![]
    } else {
        let prev = verified_upto(docs, bib, j - 1);
        match doc_outcome(docs[j - 1], bib) {
            DocOutcome::Verified(a) => prev.push(a),
            _ => prev,
        }
    }
}

proof fn lemma_filter_all_fail<A>(s: Seq<A>, pred: spec_fn(A) -> bool)
    requires
        forall|i: int| 0 <= i < s.len() ==> !pred(s[i]),
    ensures
        s.filter(pred).len() == 0,
    decreases s.len(),
{
    reveal(Seq::filter);
    if s.len() > 0 {
        lemma_filter_all_fail(s.drop_last(), pred);
    }
}

/// Verifies a batch of documents against the bibliography: checks each
/// article's parenthesis balance and citation formats, resolves its
/// citations, disambiguates them, and requires its index title. The first
/// failing document rejects the run; non-articles are passed over.
pub fn verify_mdx_files(docs: Vec<MdxDocument>, all_entries: &Vec<Entry>) -> (r: Result<
    Vec<ArticleFileData>,
    crate::errors::VerifyError,
>)
    ensures
        match r {
            Ok(articles) => {
                &&& forall|i: int|
                    0 <= i < docs.deep_view().len() ==> !(doc_outcome(
                        #[trigger] docs.deep_view()[i],
                        all_entries.deep_view(),
                    ) is Rejected)
                &&& articles.deep_view() == verified_upto(
                    docs.deep_view(),
                    all_entries.deep_view(),
                    docs.deep_view().len() as int,
                )
            },
            Err(e) => exists|i: int|
                {
                    &&& 0 <= i < docs.deep_view().len()
                    &&& doc_outcome(#[trigger] docs.deep_view()[i], all_entries.deep_view())
                        == DocOutcome::Rejected(e@)
                    &&& forall|j: int|
                        0 <= j < i ==> !(doc_outcome(
                            #[trigger] docs.deep_view()[j],
                            all_entries.deep_view(),
                        ) is Rejected)
                },
        },
{
    let ghost dv = docs.deep_view();
    let ghost bib = all_entries.deep_view();
    let mut all_articles: Vec<ArticleFileData> = Vec::new();
    let mut i: usize = 0;
    while i < docs.len()
        invariant
            i <= docs@.len(),
            dv == docs.deep_view(),
            bib == all_entries.deep_view(),
            forall|j: int| 0 <= j < i ==> !(doc_outcome(#[trigger] dv[j], bib) is Rejected),
            all_articles.deep_view() == verified_upto(dv, bib, i as int),
        decreases docs@.len() - i,
    {
        let doc = &docs[i];
        proof {
            assert(dv[i as int] == docs@[i as int]@);
        }
        let ghost docv = dv[i as int];
        if doc.metadata.is_article {
            if !check_parentheses_balance(&doc.markdown_content) {
                proof {
                    assert(doc_outcome(docv, bib) == DocOutcome::Rejected(
                        crate::errors::VerifyErrorV::UnbalancedParentheses { path: docv.path },
                    ));
                }
                return Err(
                    crate::errors::VerifyError::UnbalancedParentheses { path: doc.path.clone() },
                );
            }
            let citations = crate::scanner::extract_citations_from_markdown(
                &doc.markdown_content,
            );
            match first_bad_citation(&citations) {
                Some(bad) => {
                    proof {
                        assert(citations.deep_view()[bad as int] == citations@[bad as int]@);
                    }
                    return Err(
                        crate::errors::VerifyError::MalformedCitation {
                            path: doc.path.clone(),
                            citation: citations[bad].clone(),
                        },
                    );
                },
                None => {},
            }
            let citations_unique = create_citations_set(citations);
            let ghost setv = citations_unique.deep_view();
            let matched = match match_citations_to_bibliography(citations_unique, all_entries) {
                Ok(m) => m,
                Err(e) => {
                    match e {
                        CitationError::UnmatchedCitations(u) => {
                            return Err(
                                crate::errors::VerifyError::UnmatchedCitations {
                                    path: doc.path.clone(),
                                    citations: u,
                                },
                            );
                        },
                        CitationError::AmbiguousMatch(_details) => {
                            proof {
                                assert(false);
                            }
                            return Err(
                                crate::errors::VerifyError::MissingMetadataField {
                                    path: doc.path.clone(),
                                },
                            );
                        },
                    }
                },
            };
            proof {
                lemma_filter_all_fail(setv, |c: Seq<char>| unmatched(bib, c));
                assert(matched.deep_view() =~~= matched_of(bib, setv));
            }
            let disambiguated_matched_citations =
                crate::transformers::disambiguate_matched_citations(matched);
            proof {
                assert(disambiguated_matched_citations.deep_view() =~~= disambiguated_all(
                    matched_of(bib, setv),
                ));
            }
            let article = ArticleFileDataUnverified {
                path: doc.path.clone(),
                metadata: MetadataUnverified {
                    title: doc.metadata.title.clone(),
                    index_title: match &doc.metadata.index_title {
                        Some(t) => Some(t.clone()),
                        None => None,
                    },
                    description: doc.metadata.description.clone(),
                    is_article: doc.metadata.is_article,
                    authors: match &doc.metadata.authors {
                        Some(a) => Some(a.clone()),
                        None => None,
                    },
                    editors: match &doc.metadata.editors {
                        Some(e) => Some(e.clone()),
                        None => None,
                    },
                    contributors: match &doc.metadata.contributors {
                        Some(c) => Some(c.clone()),
                        None => None,
                    },
                },
                markdown_content: doc.markdown_content.clone(),
                entries_disambiguated: disambiguated_matched_citations,
                full_file_content: doc.full_file_content.clone(),
            };
            let verified = match ArticleFileData::try_from(article) {
                Ok(v) => v,
                Err(_m) => {
                    return Err(
                        crate::errors::VerifyError::MissingMetadataField {
                            path: doc.path.clone(),
                        },
                    );
                },
            };
            let ghost prev = all_articles.deep_view();
            proof {
                assert(doc_outcome(docv, bib) matches DocOutcome::Verified(a) && verified@ =~~= a);
            }
            all_articles.push(verified);
            proof {
                assert(doc_outcome(docv, bib) matches DocOutcome::Verified(a)
                    && all_articles.deep_view() =~~= prev.push(a));
            }
        }
        proof {
            assert(all_articles.deep_view() == verified_upto(dv, bib, i + 1));
        }
        i += 1;
    }
    Ok(all_articles)
}

proof fn lemma_trim_nonws_head(s: Seq<char>)
    requires
        s.len() > 0,
        !is_wspace(s[0]),
    ensures
        trim(s).len() >= 1,
        trim(s)[0] == s[0],
    decreases s.len(),
{
    assert(crate::text::trim_start(s) == s);
    lemma_trim_end_nonws_head(s);
}

proof fn lemma_trim_end_nonws_head(s: Seq<char>)
    requires
        s.len() > 0,
        !is_wspace(s[0]),
    ensures
        crate::text::trim_end(s).len() >= 1,
        crate::text::trim_end(s)[0] == s[0],
    decreases s.len(),
{
    if is_wspace(s.last()) {
        if s.len() == 1 {
            assert(false);
        } else {
            lemma_trim_end_nonws_head(s.drop_last());
        }
    }
}

} // verus!
