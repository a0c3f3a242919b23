//! The document assembler: builds the append payload of each verified
//! article (bibliography section, author blocks, notes heading) and the
//! alphabetical index document. Writing the results back to disk belongs
//! to the surrounding I/O layer, which receives the finished strings.

use vstd::prelude::*;

use crate::text::{
    chars_to_string, contains_sub, dec_rep, lex_lt, lower_char, lower_seq, matches_at, push_all,
    push_u64_dec, replace_seq, str_to_chars,
};
use crate::transformers::{rendered_entries, stable_sorted};
use crate::validators::{ArticleFileData, ArticleFileDataV, Metadata, MetadataV,
    MatchedCitationDisambiguated};

verus! {

/// What processing a batch of articles did: how many payload pieces were
/// produced and how many articles carried nothing to append.
#[derive(Debug)]
pub struct InserterOutcome {
    pub total_articles_processed: usize,
    pub total_bibliographies_inserted: usize,
    pub total_authors_inserted: usize,
    pub total_notes_headings_inserted: usize,
    pub total_empty_payloads: usize,
}

/// One article's processing result: the path and, when the article had a
/// payload, the full new file content to persist. An article without a
/// payload is left untouched.
#[derive(Debug)]
pub struct ProcessedArticle {
    pub path: String,
    pub new_content: Option<String>,
}

/// The view of a [`ProcessedArticle`].
#[verifier::ext_equal]
pub struct ProcessedArticleV {
    pub path: Seq<char>,
    pub new_content: Option<Seq<char>>,
}

impl View for ProcessedArticle {
    type V = ProcessedArticleV;

    open spec fn view(&self) -> ProcessedArticleV {
        ProcessedArticleV {
            path: self.path@,
            new_content: match self.new_content {
                Some(c) => Some(c@),
                None => None,
            },
        }
    }
}

impl DeepView for ProcessedArticle {
    type V = ProcessedArticleV;

    open spec fn deep_view(&self) -> ProcessedArticleV {
        self.view()
    }
}

/// Path and title of one article in the generated index.
#[derive(Debug, Clone)]
pub struct ArticleIndexData {
    /// Path to the file whose contents were extracted.
    pub path: String,
    /// Title for the index entry.
    pub index_title: String,
}

/// The view of an [`ArticleIndexData`].
#[verifier::ext_equal]
pub struct ArticleIndexDataV {
    pub path: Seq<char>,
    pub index_title: Seq<char>,
}

impl View for ArticleIndexData {
    type V = ArticleIndexDataV;

    open spec fn view(&self) -> ArticleIndexDataV {
        ArticleIndexDataV { path: self.path@, index_title: self.index_title@ }
    }
}

impl DeepView for ArticleIndexData {
    type V = ArticleIndexDataV;

    open spec fn deep_view(&self) -> ArticleIndexDataV {
        self.view()
    }
}

/// The bibliography lines of a rendered list, one `- ` bullet per line.
pub open spec fn bullet_lines(ls: Seq<Seq<char>>) -> Seq<char>
    decreases ls.len(),
{
    if ls.len() == 0 {
        seq![]
    } else {
        bullet_lines(ls.drop_last()) + "- "@ + ls.last() + "\n"@
    }
}

/// The cosmetic pass the assembled bibliography block goes through:
/// every maximal run of two or more periods collapses to a single
/// period.
pub open spec fn normalize_periods(s: Seq<char>) -> Seq<char> {
    crate::text::collapse_runs(s, '.')
}

/// The full bibliography section of one article: nothing when it has no
/// citations, else a heading, one bullet per rendered entry, and a
/// closing tag, with periods normalized.
pub open spec fn mdx_bibliography(entries: Seq<crate::validators::MatchedCitationDisambiguatedV>) -> Seq<
    char,
> {
    if entries.len() == 0 {
        seq![]
    } else {
        normalize_periods(
            "\n## Bibliography\n\n<div className=\"text-sm\">\n"@ + bullet_lines(
                rendered_entries(stable_sorted(entries)),
            ) + "</div>\n"@,
        )
    }
}

/// Builds the bibliography section of one article.
pub fn generate_mdx_bibliography(entries: &Vec<MatchedCitationDisambiguated>) -> (r: String)
    ensures
        r@ == mdx_bibliography(entries.deep_view()),
{
    if entries.len() == 0 {
        let empty: Vec<char> = Vec::new();
        return chars_to_string(&empty);
    }
    let prepared_entries = crate::transformers::entries_to_strings(entries);
    let mut out: Vec<char> = str_to_chars("\n## Bibliography\n\n<div className=\"text-sm\">\n");
    let ghost header = out@;
    let ghost lines = prepared_entries.deep_view();
    let mut i: usize = 0;
    proof {
        assert(lines.subrange(0, 0) =~= Seq::<Seq<char>>::empty());
        assert(out@ =~= header + bullet_lines(lines.subrange(0, 0)));
    }
    while i < prepared_entries.len()
        invariant
            i <= prepared_entries@.len(),
            lines == prepared_entries.deep_view(),
            out@ == header + bullet_lines(lines.subrange(0, i as int)),
        decreases prepared_entries@.len() - i,
    {
        let bullet = str_to_chars("- ");
        push_all(&mut out, &bullet);
        let line = str_to_chars(prepared_entries[i].as_str());
        push_all(&mut out, &line);
        out.push('\n');
        proof {
            reveal_strlit("\n");
            let sub = lines.subrange(0, i + 1);
            assert(sub.drop_last() =~= lines.subrange(0, i as int));
            assert(sub.last() == lines[i as int]);
            assert(line@ == lines[i as int]);
            assert(out@ =~= header + bullet_lines(sub));
        }
        i += 1;
    }
    proof {
        assert(lines.subrange(0, lines.len() as int) =~= lines);
    }
    let footer = str_to_chars("</div>\n");
    push_all(&mut out, &footer);
    let collapsed = crate::text::collapse_runs_exec(&out, '.');
    chars_to_string(&collapsed)
}

/// The author, editor and contributor blocks of one article's metadata;
/// each block appears only when its field is present.
pub open spec fn mdx_authors(m: MetadataV) -> Seq<char> {
    (match m.authors {
        Some(a) => "\n**Authors**  \n"@ + a + "\n"@,
        None => seq![],
    }) + (match m.editors {
        Some(e) => "\n**Editors**  \n"@ + e + "\n"@,
        None => seq![],
    }) + (match m.contributors {
        Some(c) => "\n**Contributors**  \n"@ + c + "\n"@,
        None => seq![],
    })
}

/// Builds the author, editor and contributor blocks of one article.
pub fn generate_mdx_authors(metadata: &Metadata) -> (r: String)
    ensures
        r@ == mdx_authors(metadata@),
{
    let mut out: Vec<char> = Vec::new();
    match &metadata.authors {
        Some(authors) => {
            let head = str_to_chars("\n**Authors**  \n");
            push_all(&mut out, &head);
            let text = str_to_chars(authors.as_str());
            push_all(&mut out, &text);
            out.push('\n');
        },
        None => {},
    }
    match &metadata.editors {
        Some(editors) => {
            let head = str_to_chars("\n**Editors**  \n");
            push_all(&mut out, &head);
            let text = str_to_chars(editors.as_str());
            push_all(&mut out, &text);
            out.push('\n');
        },
        None => {},
    }
    match &metadata.contributors {
        Some(contributors) => {
            let head = str_to_chars("\n**Contributors**  \n");
            push_all(&mut out, &head);
            let text = str_to_chars(contributors.as_str());
            push_all(&mut out, &text);
            out.push('\n');
        },
        None => {},
    }
    proof {
        reveal_strlit("\n");
        assert(out@ =~= mdx_authors(metadata@));
    }
    chars_to_string(&out)
}

/// The notes heading of one article: present exactly when the body holds
/// a footnote marker `[^1]`.
pub open spec fn notes_heading(markdown: Seq<char>) -> Seq<char> {
    if contains_sub(markdown, "[^1]"@) {
        "\n**Notes**"@
    } else {
        seq![]
    }
}

/// Builds the notes heading of one article.
pub fn generate_notes_heading(markdown: &String) -> (r: String)
    ensures
        r@ == notes_heading(markdown@),
{
    let chars = str_to_chars(markdown.as_str());
    let marker = str_to_chars("[^1]");
    if crate::text::contains_sub_exec(&chars, &marker) {
        let heading = str_to_chars("\n**Notes**");
        chars_to_string(&heading)
    } else {
        let empty: Vec<char> = Vec::new();
        chars_to_string(&empty)
    }
}

/// The whole append payload of one article.
pub open spec fn article_payload(a: ArticleFileDataV) -> Seq<char> {
    mdx_bibliography(a.entries_disambiguated) + mdx_authors(a.metadata) + notes_heading(
        a.markdown_content,
    )
}

/// The persisted content of one processed article: the original file
/// content, a newline, and the payload — or nothing to write when the
/// payload is empty.
pub open spec fn processed_content(a: ArticleFileDataV) -> Option<Seq<char>> {
    if article_payload(a).len() == 0 {
        None
    } else {
        Some(a.full_file_content + "\n"@ + article_payload(a))
    }
}

/// Builds the append payload of one article and the new file content; an
/// article whose payload is empty is left untouched. The outcome counters
/// record what the payload contained.
fn process_mdx_file(article_file_data: &ArticleFileData, inserter_outcome: &mut InserterOutcome) -> (r:
    ProcessedArticle)
    requires
        old(inserter_outcome).total_articles_processed < usize::MAX,
        old(inserter_outcome).total_bibliographies_inserted < usize::MAX,
        old(inserter_outcome).total_authors_inserted < usize::MAX,
        old(inserter_outcome).total_notes_headings_inserted < usize::MAX,
        old(inserter_outcome).total_empty_payloads < usize::MAX,
    ensures
        r@.path == article_file_data@.path,
        r@.new_content == processed_content(article_file_data@),
        final(inserter_outcome).total_bibliographies_inserted == old(
            inserter_outcome,
        ).total_bibliographies_inserted + if mdx_bibliography(
            article_file_data@.entries_disambiguated,
        ).len() > 0 {
            1int
        } else {
            0int
        },
        final(inserter_outcome).total_authors_inserted == old(inserter_outcome).total_authors_inserted
            + if mdx_authors(article_file_data@.metadata).len() > 0 {
            1int
        } else {
            0int
        },
        final(inserter_outcome).total_notes_headings_inserted == old(
            inserter_outcome,
        ).total_notes_headings_inserted + if notes_heading(
            article_file_data@.markdown_content,
        ).len() > 0 {
            1int
        } else {
            0int
        },
        final(inserter_outcome).total_empty_payloads == old(inserter_outcome).total_empty_payloads
            + if article_payload(article_file_data@).len() == 0 {
            1int
        } else {
            0int
        },
        final(inserter_outcome).total_articles_processed == old(
            inserter_outcome,
        ).total_articles_processed + if article_payload(article_file_data@).len() == 0 {
            0int
        } else {
            1int
        },
{
    let mut mdx_payload: Vec<char> = Vec::new();
    let mdx_bibliography_str = generate_mdx_bibliography(&article_file_data.entries_disambiguated);
    let mdx_authors_str = generate_mdx_authors(&article_file_data.metadata);
    let mdx_notes_heading = generate_notes_heading(&article_file_data.markdown_content);

    if !mdx_bibliography_str.as_str().is_empty() {
        let piece = str_to_chars(mdx_bibliography_str.as_str());
        push_all(&mut mdx_payload, &piece);
        inserter_outcome.total_bibliographies_inserted += 1;
    }
    if !mdx_authors_str.as_str().is_empty() {
        let piece = str_to_chars(mdx_authors_str.as_str());
        push_all(&mut mdx_payload, &piece);
        inserter_outcome.total_authors_inserted += 1;
    }
    if !mdx_notes_heading.as_str().is_empty() {
        let piece = str_to_chars(mdx_notes_heading.as_str());
        push_all(&mut mdx_payload, &piece);
        inserter_outcome.total_notes_headings_inserted += 1;
    }
    proof {
        assert(mdx_payload@ =~= article_payload(article_file_data@));
    }
    if mdx_payload.len() == 0 {
        inserter_outcome.total_empty_payloads += 1;
        return ProcessedArticle { path: article_file_data.path.clone(), new_content: None };
    }
    let mut content = str_to_chars(article_file_data.full_file_content.as_str());
    content.push('\n');
    push_all(&mut content, &mdx_payload);
    inserter_outcome.total_articles_processed += 1;
    proof {
        reveal_strlit("\n");
        assert(content@ =~= article_file_data@.full_file_content + "\n"@ + article_payload(
            article_file_data@,
        ));
    }
    ProcessedArticle {
        path: article_file_data.path.clone(),
        new_content: Some(chars_to_string(&content)),
    }
}

/// Number of the first `j` articles whose payload carries the given
/// piece, or is empty, as the flag function tells.
pub open spec fn count_flagged(
    s: Seq<ArticleFileDataV>,
    flag: spec_fn(ArticleFileDataV) -> bool,
    j: int,
) -> int
    decreases j,
{
    if j <= 0 {
        0
    } else {
        count_flagged(s, flag, j - 1) + if flag(s[j - 1]) {
            1int
        } else {
            0int
        }
    }
}

proof fn lemma_count_flagged_bounds(
    s: Seq<ArticleFileDataV>,
    flag: spec_fn(ArticleFileDataV) -> bool,
    j: int,
)
    requires
        j >= 0,
    ensures
        0 <= count_flagged(s, flag, j) <= j,
    decreases j,
{
    if j > 0 {
        lemma_count_flagged_bounds(s, flag, j - 1);
    }
}

/// An article's payload carries a bibliography section.
pub open spec fn has_bibliography(a: ArticleFileDataV) -> bool {
    mdx_bibliography(a.entries_disambiguated).len() > 0
}

/// An article's payload carries an author block.
pub open spec fn has_author_block(a: ArticleFileDataV) -> bool {
    mdx_authors(a.metadata).len() > 0
}

/// An article's payload carries a notes heading.
pub open spec fn has_notes(a: ArticleFileDataV) -> bool {
    notes_heading(a.markdown_content).len() > 0
}

/// An article has nothing to append.
pub open spec fn has_empty_payload(a: ArticleFileDataV) -> bool {
    article_payload(a).len() == 0
}

/// Processes a batch of articles: builds each one's new file content (or
/// leaves it untouched when there is nothing to append) and tallies the
/// outcome. Persisting the contents is the caller's part.
pub fn process_mdx_files(all_articles: &Vec<ArticleFileData>) -> (r: (Vec<ProcessedArticle>,
    InserterOutcome))
    ensures
        r.0.deep_view().len() == all_articles.deep_view().len(),
        forall|i: int|
            0 <= i < all_articles.deep_view().len() ==> {
                &&& (#[trigger] r.0.deep_view()[i]).path == all_articles.deep_view()[i].path
                &&& r.0.deep_view()[i].new_content == processed_content(
                    all_articles.deep_view()[i],
                )
            },
        ({
            let dv = all_articles.deep_view();
            let n = dv.len() as int;
            &&& r.1.total_bibliographies_inserted == count_flagged(
                dv,
                |a: ArticleFileDataV| has_bibliography(a),
                n,
            )
            &&& r.1.total_authors_inserted == count_flagged(
                dv,
                |a: ArticleFileDataV| has_author_block(a),
                n,
            )
            &&& r.1.total_notes_headings_inserted == count_flagged(
                dv,
                |a: ArticleFileDataV| has_notes(a),
                n,
            )
            &&& r.1.total_empty_payloads == count_flagged(
                dv,
                |a: ArticleFileDataV| has_empty_payload(a),
                n,
            )
            &&& r.1.total_articles_processed + r.1.total_empty_payloads == n
        }),
{
    let mut inserter_outcome = InserterOutcome {
        total_articles_processed: 0,
        total_bibliographies_inserted: 0,
        total_authors_inserted: 0,
        total_notes_headings_inserted: 0,
        total_empty_payloads: 0,
    };
    let mut results: Vec<ProcessedArticle> = Vec::new();
    let mut i: usize = 0;
    while i < all_articles.len()
        invariant
            i <= all_articles@.len(),
            results.deep_view().len() == i,
            forall|k: int|
                0 <= k < i ==> {
                    &&& (#[trigger] results.deep_view()[k]).path
                        == all_articles.deep_view()[k].path
                    &&& results.deep_view()[k].new_content == processed_content(
                        all_articles.deep_view()[k],
                    )
                },
            inserter_outcome.total_articles_processed + inserter_outcome.total_empty_payloads == i,
            inserter_outcome.total_bibliographies_inserted as int == count_flagged(
                all_articles.deep_view(),
                |a: ArticleFileDataV| has_bibliography(a),
                i as int,
            ),
            inserter_outcome.total_authors_inserted as int == count_flagged(
                all_articles.deep_view(),
                |a: ArticleFileDataV| has_author_block(a),
                i as int,
            ),
            inserter_outcome.total_notes_headings_inserted as int == count_flagged(
                all_articles.deep_view(),
                |a: ArticleFileDataV| has_notes(a),
                i as int,
            ),
            inserter_outcome.total_empty_payloads as int == count_flagged(
                all_articles.deep_view(),
                |a: ArticleFileDataV| has_empty_payload(a),
                i as int,
            ),
        decreases all_articles@.len() - i,
    {
        let ghost prev = results.deep_view();
        proof {
            assert(all_articles.deep_view()[i as int] == all_articles@[i as int]@);
            let dv = all_articles.deep_view();
            lemma_count_flagged_bounds(dv, |a: ArticleFileDataV| has_bibliography(a), i as int);
            lemma_count_flagged_bounds(dv, |a: ArticleFileDataV| has_author_block(a), i as int);
            lemma_count_flagged_bounds(dv, |a: ArticleFileDataV| has_notes(a), i as int);
            lemma_count_flagged_bounds(dv, |a: ArticleFileDataV| has_empty_payload(a), i as int);
        }
        let processed = process_mdx_file(&all_articles[i], &mut inserter_outcome);
        results.push(processed);
        proof {
            assert(results.deep_view() =~~= prev.push(
                ProcessedArticleV {
                    path: all_articles.deep_view()[i as int].path,
                    new_content: processed_content(all_articles.deep_view()[i as int]),
                },
            ));
        }
        i += 1;
    }
    (results, inserter_outcome)
}

/// Path and index title of one article.
pub fn get_index_data(article: &ArticleFileData) -> (r: ArticleIndexData)
    ensures
        r@.path == article@.path,
        r@.index_title == article@.metadata.index_title,
{
    ArticleIndexData {
        path: article.path.clone(),
        index_title: article.metadata.index_title.clone(),
    }
}

/// The view of an optional prefix rewrite pair.
pub open spec fn rewrite_view(rewrite: Option<&(String, String)>) -> Option<(Seq<char>, Seq<char>)> {
    match rewrite {
        Some(p) => Some((p.0@, p.1@)),
        None => None,
    }
}

/// One index line: the article's title linking to its path with the
/// `.mdx` extension removed and the optional prefix rewrite applied to
/// the link target only.
pub open spec fn index_entry_text(d: ArticleIndexDataV, rewrite: Option<(Seq<char>, Seq<char>)>) -> Seq<
    char,
> {
    let link0 = replace_seq(d.path, ".mdx"@, Seq::<char>::empty());
    let link = match rewrite {
        Some(p) => if matches_at(link0, p.0, 0) {
            p.1 + link0.skip(p.0.len() as int)
        } else {
            link0
        },
        None => link0,
    };
    "\n["@ + d.index_title + "]("@ + link + ")\n"@
}

/// Builds one index line.
pub fn generate_index_entry(index_data: &ArticleIndexData, rewrite: Option<&(String, String)>) -> (r:
    String)
    ensures
        r@ == index_entry_text(index_data@, rewrite_view(rewrite)),
{
    let path_chars = str_to_chars(index_data.path.as_str());
    let pat = str_to_chars(".mdx");
    let empty: Vec<char> = Vec::new();
    proof {
        reveal_strlit(".mdx");
    }
    let link0 = crate::text::replace_all(&path_chars, &pat, &empty);
    let link: Vec<char> = match rewrite {
        Some(p) => {
            let from = str_to_chars(p.0.as_str());
            let to = str_to_chars(p.1.as_str());
            if crate::text::matches_at_exec(&link0, &from, 0) {
                let mut rewritten = to;
                let rest = crate::text::subvec(&link0, from.len(), link0.len());
                push_all(&mut rewritten, &rest);
                proof {
                    assert(rewritten@ =~= p.1@ + link0@.skip(p.0@.len() as int));
                }
                rewritten
            } else {
                link0
            }
        },
        None => link0,
    };
    let mut out = str_to_chars("\n[");
    let title = str_to_chars(index_data.index_title.as_str());
    push_all(&mut out, &title);
    let mid = str_to_chars("](");
    push_all(&mut out, &mid);
    push_all(&mut out, &link);
    let tail = str_to_chars(")\n");
    push_all(&mut out, &tail);
    proof {
        assert(out@ =~= index_entry_text(index_data@, rewrite_view(rewrite)));
    }
    chars_to_string(&out)
}

/// The index sorting key of an article: its index title, lowercased.
pub open spec fn idx_sort_key(d: ArticleIndexDataV) -> Seq<char> {
    lower_seq(d.index_title)
}

/// Insertion of an index entry into a sorted run: it lands after every
/// entry whose key is not greater, which keeps the sort stable.
pub open spec fn insert_stable_idx(s: Seq<ArticleIndexDataV>, d: ArticleIndexDataV) -> Seq<
    ArticleIndexDataV,
>
    decreases s.len(),
{
    if s.len() == 0 {
        seq![d]
    } else if lex_lt(idx_sort_key(d), idx_sort_key(s.last())) {
        insert_stable_idx(s.drop_last(), d).push(s.last())
    } else {
        s.push(d)
    }
}

/// The stable sort of index entries by case-insensitive title.
pub open spec fn stable_sorted_idx(s: Seq<ArticleIndexDataV>) -> Seq<ArticleIndexDataV>
    decreases s.len(),
{
    if s.len() == 0 {
        seq![]
    } else {
        insert_stable_idx(stable_sorted_idx(s.drop_last()), s.last())
    }
}

proof fn lemma_insert_stable_idx_at(s: Seq<ArticleIndexDataV>, d: ArticleIndexDataV, q: int)
    requires
        0 <= q <= s.len(),
        forall|idx: int| q <= idx < s.len() ==> lex_lt(idx_sort_key(d), idx_sort_key(s[idx])),
        q > 0 ==> !lex_lt(idx_sort_key(d), idx_sort_key(s[q - 1])),
    ensures
        insert_stable_idx(s, d) == s.subrange(0, q) + seq![d] + s.subrange(q, s.len() as int),
    decreases s.len(),
{
    if s.len() == 0 {
        assert(insert_stable_idx(s, d) =~= s.subrange(0, q) + seq![d] + s.subrange(
            q,
            s.len() as int,
        ));
    } else if q == s.len() {
        assert(s.last() == s[q - 1]);
        assert(insert_stable_idx(s, d) == s.push(d));
        assert(s.push(d) =~= s.subrange(0, q) + seq![d] + s.subrange(q, s.len() as int));
    } else {
        assert(lex_lt(idx_sort_key(d), idx_sort_key(s.last())));
        let t = s.drop_last();
        assert(forall|idx: int| q <= idx < t.len() ==> t[idx] == s[idx]);
        if q > 0 {
            assert(t[q - 1] == s[q - 1]);
        }
        lemma_insert_stable_idx_at(t, d, q);
        assert((t.subrange(0, q) + seq![d] + t.subrange(q, t.len() as int)).push(s.last()) =~= s
            .subrange(0, q) + seq![d] + s.subrange(q, s.len() as int));
    }
}

impl ArticleIndexData {
    /// An explicit copy with a known view.
    pub fn duplicate(&self) -> (r: ArticleIndexData)
        ensures
            r@ == self@,
    {
        ArticleIndexData { path: self.path.clone(), index_title: self.index_title.clone() }
    }
}

/// Executable computation of [`idx_sort_key`].
fn idx_sort_key_exec(d: &ArticleIndexData) -> (r: Vec<char>)
    ensures
        r@ == idx_sort_key(d@),
{
    let title = str_to_chars(d.index_title.as_str());
    crate::text::to_lower_chars(&title)
}

/// Sorts index entries by title, case-insensitively and stably.
fn sort_index_data(entries: &Vec<ArticleIndexData>) -> (r: Vec<ArticleIndexData>)
    ensures
        r.deep_view() == stable_sorted_idx(entries.deep_view()),
{
    let ghost dv = entries.deep_view();
    let mut out: Vec<ArticleIndexData> = Vec::new();
    let mut i: usize = 0;
    proof {
        assert(dv.subrange(0, 0) =~= Seq::<ArticleIndexDataV>::empty());
        assert(out.deep_view() =~= stable_sorted_idx(dv.subrange(0, 0)));
    }
    while i < entries.len()
        invariant
            i <= entries@.len(),
            dv == entries.deep_view(),
            out.deep_view() == stable_sorted_idx(dv.subrange(0, i as int)),
        decreases entries@.len() - i,
    {
        let item = entries[i].duplicate();
        let key = idx_sort_key_exec(&item);
        let mut q: usize = out.len();
        loop
            invariant_except_break
                q <= out@.len(),
                key@ == idx_sort_key(item@),
                forall|idx: int|
                    q <= idx < out.deep_view().len() ==> lex_lt(
                        idx_sort_key(item@),
                        idx_sort_key(#[trigger] out.deep_view()[idx]),
                    ),
            ensures
                q <= out@.len(),
                forall|idx: int|
                    q <= idx < out.deep_view().len() ==> lex_lt(
                        idx_sort_key(item@),
                        idx_sort_key(#[trigger] out.deep_view()[idx]),
                    ),
                q > 0 ==> !lex_lt(idx_sort_key(item@), idx_sort_key(out.deep_view()[q - 1])),
            decreases q,
        {
            if q == 0 {
                break;
            }
            let prev_key = idx_sort_key_exec(&out[q - 1]);
            proof {
                assert(out.deep_view()[q - 1] == out@[q - 1]@);
            }
            if !crate::text::lex_lt_exec(&key, &prev_key) {
                break;
            }
            q -= 1;
        }
        let ghost prev = out.deep_view();
        out.insert(q, item);
        proof {
            lemma_insert_stable_idx_at(prev, item@, q as int);
            let sub = dv.subrange(0, i + 1);
            assert(sub.drop_last() =~= dv.subrange(0, i as int));
            assert(sub.last() == dv[i as int]);
            assert(out.deep_view() =~~= prev.subrange(0, q as int) + seq![item@] + prev.subrange(
                q as int,
                prev.len() as int,
            ));
            assert(out.deep_view() =~~= stable_sorted_idx(sub));
        }
        i += 1;
    }
    proof {
        assert(dv.subrange(0, dv.len() as int) =~= dv);
    }
    out
}

/// ASCII uppercasing of one character; all others are unchanged.
pub open spec fn ascii_upper(c: char) -> char {
    if 'a' <= c && c <= 'z' {
        ((c as u8) - 32) as char
    } else {
        c
    }
}

/// The section letter of a title: its first character, uppercased; an
/// empty title has none.
pub open spec fn first_letter(t: Seq<char>) -> Option<char> {
    if t.len() == 0 {
        None
    } else {
        Some(ascii_upper(t[0]))
    }
}

/// Insertion of a letter into a sorted run without duplicates.
pub open spec fn insert_letter(ls: Seq<char>, c: char) -> Seq<char>
    decreases ls.len(),
{
    if ls.len() == 0 {
        seq![c]
    } else if c < ls[0] {
        seq![c] + ls
    } else if c == ls[0] {
        ls
    } else {
        seq![ls[0]] + insert_letter(ls.drop_first(), c)
    }
}

/// The sorted section letters of the first `j` index entries.
pub open spec fn letters_of(s: Seq<ArticleIndexDataV>, j: int) -> Seq<char>
    decreases j,
{
    if j <= 0 {
        seq![]
    } else {
        let prev = letters_of(s, j - 1);
        match first_letter(s[j - 1].index_title) {
            Some(l) => insert_letter(prev, l),
            None => prev,
        }
    }
}

proof fn lemma_insert_letter_at(ls: Seq<char>, c: char, q: int)
    requires
        0 <= q <= ls.len(),
        forall|i: int| 0 <= i < q ==> ls[i] < c,
        q < ls.len() ==> !(ls[q] < c),
    ensures
        insert_letter(ls, c) == if q < ls.len() && ls[q] == c {
            ls
        } else {
            ls.subrange(0, q) + seq![c] + ls.subrange(q, ls.len() as int)
        },
    decreases ls.len(),
{
    if ls.len() == 0 {
        assert(insert_letter(ls, c) =~= ls.subrange(0, q) + seq![c] + ls.subrange(
            q,
            ls.len() as int,
        ));
    } else if q == 0 {
        if c == ls[0] {
        } else {
            assert(c < ls[0]);
            assert(seq![c] + ls =~= ls.subrange(0, q) + seq![c] + ls.subrange(q, ls.len() as int));
        }
    } else {
        assert(ls[0] < c);
        let t = ls.drop_first();
        assert(forall|i: int| 0 <= i < q - 1 ==> t[i] == ls[i + 1]);
        if q - 1 < t.len() {
            assert(t[q - 1] == ls[q as int]);
        }
        lemma_insert_letter_at(t, c, q - 1);
        if q < ls.len() && ls[q] == c {
            assert(insert_letter(ls, c) =~= ls);
        } else {
            assert(seq![ls[0]] + (t.subrange(0, q - 1) + seq![c] + t.subrange(
                q - 1,
                t.len() as int,
            )) =~= ls.subrange(0, q) + seq![c] + ls.subrange(q, ls.len() as int));
        }
    }
}

/// Executable computation of a title's section letter.
fn first_letter_exec(title: &String) -> (r: Option<char>)
    ensures
        r == first_letter(title@),
{
    let chars = str_to_chars(title.as_str());
    if chars.len() == 0 {
        None
    } else {
        let c = chars[0];
        if 'a' <= c && c <= 'z' {
            Some(((c as u8) - 32) as char)
        } else {
            Some(c)
        }
    }
}

/// Executable insertion into the sorted letter run.
fn insert_letter_exec(ls: &mut Vec<char>, c: char)
    ensures
        final(ls)@ == insert_letter(old(ls)@, c),
{
    let mut q: usize = 0;
    while q < ls.len() && ls[q] < c
        invariant
            q <= ls.len(),
            forall|i: int| 0 <= i < q ==> ls@[i] < c,
            ls@ == old(ls)@,
        decreases ls.len() - q,
    {
        q += 1;
    }
    proof {
        lemma_insert_letter_at(ls@, c, q as int);
    }
    if q < ls.len() && ls[q] == c {
        return ;
    }
    let ghost prev = ls@;
    ls.insert(q, c);
    proof {
        assert(ls@ =~= prev.subrange(0, q as int) + seq![c] + prev.subrange(
            q as int,
            prev.len() as int,
        ));
    }
}

/// One jump link, `[L](#l)`.
pub open spec fn jump_item(c: char) -> Seq<char> {
    "["@ + seq![c] + "](#"@ + seq![lower_char(c)] + ")"@
}

/// The jump links of the first `j` letters, separated by a middle dot.
pub open spec fn jump_links_text(ls: Seq<char>, j: int) -> Seq<char>
    decreases j,
{
    if j <= 0 {
        seq![]
    } else if j == 1 {
        jump_item(ls[0])
    } else {
        jump_links_text(ls, j - 1) + " · "@ + jump_item(ls[j - 1])
    }
}

/// The section body of the index from entry `j` on, given the letter of
/// the section currently open: a `## L` heading opens each new section.
pub open spec fn index_body(
    s: Seq<ArticleIndexDataV>,
    rewrite: Option<(Seq<char>, Seq<char>)>,
    j: int,
    cur: Option<char>,
) -> Seq<char>
    decreases s.len() - j,
{
    if j < 0 || j >= s.len() {
        seq![]
    } else {
        let fl = first_letter(s[j].index_title);
        if fl != cur && fl is Some {
            "\n## "@ + seq![fl->0] + "\n"@ + index_entry_text(s[j], rewrite) + index_body(
                s,
                rewrite,
                j + 1,
                fl,
            )
        } else {
            index_entry_text(s[j], rewrite) + index_body(s, rewrite, j + 1, cur)
        }
    }
}

/// The whole index payload: a summary line with the article count, the
/// jump links, and the alphabetical sections with one link per article.
pub open spec fn index_payload(
    articles: Seq<ArticleFileDataV>,
    rewrite: Option<(Seq<char>, Seq<char>)>,
) -> Seq<char> {
    let sorted = stable_sorted_idx(
        articles.map_values(
            |a: ArticleFileDataV| ArticleIndexDataV {
                path: a.path,
                index_title: a.metadata.index_title,
            },
        ),
    );
    "\n_This index contains **"@ + dec_rep(sorted.len() as int)
        + " articles**, organized alphabetically by title. Use the links below to jump to a section:_\n\n"@
        + jump_links_text(letters_of(sorted, sorted.len() as int), letters_of(
        sorted,
        sorted.len() as int,
    ).len() as int) + "\n\n"@ + index_body(sorted, rewrite, 0, None)
}

/// Builds the alphabetical index payload over a batch of articles; the
/// caller appends it to the index file.
pub fn generate_index_payload(
    all_articles: &Vec<ArticleFileData>,
    rewrite: Option<&(String, String)>,
) -> (r: String)
    ensures
        r@ == index_payload(all_articles.deep_view(), rewrite_view(rewrite)),
{
    let mut index_data: Vec<ArticleIndexData> = Vec::new();
    let mut i: usize = 0;
    let ghost mapped = all_articles.deep_view().map_values(
        |a: ArticleFileDataV| ArticleIndexDataV { path: a.path, index_title: a.metadata.index_title },
    );
    while i < all_articles.len()
        invariant
            i <= all_articles@.len(),
            mapped == all_articles.deep_view().map_values(
                |a: ArticleFileDataV| ArticleIndexDataV {
                    path: a.path,
                    index_title: a.metadata.index_title,
                },
            ),
            index_data.deep_view() == mapped.subrange(0, i as int),
        decreases all_articles@.len() - i,
    {
        let ghost prev = index_data.deep_view();
        proof {
            assert(all_articles.deep_view()[i as int] == all_articles@[i as int]@);
        }
        index_data.push(get_index_data(&all_articles[i]));
        proof {
            assert(index_data.deep_view() =~~= prev.push(mapped[i as int]));
            assert(mapped.subrange(0, i + 1) =~= mapped.subrange(0, i as int).push(
                mapped[i as int],
            ));
        }
        i += 1;
    }
    proof {
        assert(mapped.subrange(0, mapped.len() as int) =~= mapped);
    }
    let sorted = sort_index_data(&index_data);
    let ghost sv = sorted.deep_view();

    // section letters
    let mut letters: Vec<char> = Vec::new();
    let mut j: usize = 0;
    while j < sorted.len()
        invariant
            j <= sorted@.len(),
            sv == sorted.deep_view(),
            letters@ == letters_of(sv, j as int),
        decreases sorted@.len() - j,
    {
        proof {
            assert(sv[j as int] == sorted@[j as int]@);
        }
        match first_letter_exec(&sorted[j].index_title) {
            Some(l) => {
                insert_letter_exec(&mut letters, l);
            },
            None => {},
        }
        j += 1;
    }

    // jump links
    let mut jump: Vec<char> = Vec::new();
    let mut k: usize = 0;
    while k < letters.len()
        invariant
            k <= letters@.len(),
            jump@ == jump_links_text(letters@, k as int),
        decreases letters@.len() - k,
    {
        if k > 0 {
            let sep = str_to_chars(" · ");
            push_all(&mut jump, &sep);
            proof {
                reveal_strlit(" · ");
            }
        }
        let open_b = str_to_chars("[");
        push_all(&mut jump, &open_b);
        jump.push(letters[k]);
        let mid = str_to_chars("](#");
        push_all(&mut jump, &mid);
        jump.push(crate::text::to_lower_char(letters[k]));
        let close_b = str_to_chars(")");
        push_all(&mut jump, &close_b);
        proof {
            assert(jump@ =~= jump_links_text(letters@, k + 1));
        }
        k += 1;
    }

    // section body
    let mut body: Vec<char> = Vec::new();
    let mut current_letter: Option<char> = None;
    let mut m: usize = 0;
    proof {
        assert(Seq::<char>::empty() + index_body(sv, rewrite_view(rewrite), 0, None)
            =~= index_body(sv, rewrite_view(rewrite), 0, None));
    }
    while m < sorted.len()
        invariant
            m <= sorted@.len(),
            sv == sorted.deep_view(),
            index_body(sv, rewrite_view(rewrite), 0, None) == body@ + index_body(
                sv,
                rewrite_view(rewrite),
                m as int,
                current_letter,
            ),
        decreases sorted@.len() - m,
    {
        proof {
            assert(sv[m as int] == sorted@[m as int]@);
        }
        let fl = first_letter_exec(&sorted[m].index_title);
        let open_section = match (fl, current_letter) {
            (Some(l), Some(c)) => l != c,
            (Some(_l), None) => true,
            _ => false,
        };
        if open_section {
            let head = str_to_chars("\n## ");
            push_all(&mut body, &head);
            match fl {
                Some(l) => {
                    body.push(l);
                },
                None => {},
            }
            body.push('\n');
            current_letter = fl;
            proof {
                reveal_strlit("\n");
            }
        }
        let entry_line = generate_index_entry(&sorted[m], rewrite);
        let line_chars = str_to_chars(entry_line.as_str());
        push_all(&mut body, &line_chars);
        proof {
            assert(index_body(sv, rewrite_view(rewrite), 0, None) =~= body@ + index_body(
                sv,
                rewrite_view(rewrite),
                m + 1,
                current_letter,
            ));
        }
        m += 1;
    }

    // assemble
    let mut out = str_to_chars("\n_This index contains **");
    push_u64_dec(&mut out, sorted.len() as u64);
    let mid_text = str_to_chars(
        " articles**, organized alphabetically by title. Use the links below to jump to a section:_\n\n",
    );
    push_all(&mut out, &mid_text);
    push_all(&mut out, &jump);
    let sep2 = str_to_chars("\n\n");
    push_all(&mut out, &sep2);
    push_all(&mut out, &body);
    proof {
        assert(out@ =~= index_payload(all_articles.deep_view(), rewrite_view(rewrite)));
    }
    chars_to_string(&out)
}

} // verus!
