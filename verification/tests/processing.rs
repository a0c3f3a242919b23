use prepyrus::bibliography::{Chunk, Date, DateValue, Entry, EntryType, PermissiveType, Person};
use prepyrus::cli::{parse_prefix_rewrite, Cli, Mode};
use prepyrus::errors::VerifyError;
use prepyrus::inserters::{generate_index_entry, ArticleIndexData};
use prepyrus::transformers::{
    disambiguate_matched_citations, entries_to_strings, format_authors, transform_book_entry,
};
use prepyrus::utils::{Settings, Utils};
use prepyrus::validators::{
    ArticleFileData, MatchedCitation, MatchedCitationDisambiguated, MdxDocument, Metadata,
    MetadataUnverified,
};
use prepyrus::Prepyrus;

fn person(surname: &str, given: &str) -> Person {
    Person { name: surname.to_string(), given_name: given.to_string() }
}

fn book(key: &str, surname: &str, given: &str, year: i32) -> Entry {
    Entry {
        key: key.to_string(),
        entry_type: EntryType::Book,
        authors: Some(vec![person(surname, given)]),
        date: Some(PermissiveType::Typed(Date { value: DateValue::At(year) })),
        title: Some(vec![Chunk::Normal("Collected Works".to_string())]),
        publisher: Some(vec![vec![Chunk::Normal("Cambridge University Press".to_string())]]),
        address: Some(vec![Chunk::Normal("Cambridge".to_string())]),
        journal: None,
        volume: None,
        number: None,
        pages: None,
        translators: None,
        doi: None,
    }
}

fn matched(citation: &str, entry: Entry) -> MatchedCitation {
    MatchedCitation { citation_raw: citation.to_string(), entry }
}

fn metadata(index_title: &str) -> Metadata {
    Metadata {
        title: index_title.to_string(),
        index_title: index_title.to_string(),
        description: String::new(),
        is_article: true,
        authors: None,
        editors: None,
        contributors: None,
    }
}

fn article(path: &str, index_title: &str) -> ArticleFileData {
    ArticleFileData {
        path: path.to_string(),
        metadata: metadata(index_title),
        markdown_content: "Body.".to_string(),
        entries_disambiguated: Vec::new(),
        full_file_content: format!("---\n---\nBody."),
    }
}

#[test]
fn author_formatting_one_two_and_three_authors() {
    let one = format_authors(vec![person("Smith", "John")]);
    assert_eq!(one, "Smith, John. ");
    let two = format_authors(vec![person("Smith", "John"), person("Doe", "Jane")]);
    assert_eq!(two, "Smith, John and Jane Doe. ");
    let three = format_authors(vec![
        person("Smith", "John"),
        person("Doe", "Jane"),
        person("Roe", "Rick"),
    ]);
    assert_eq!(three, "Smith, John et al. ");
}

#[test]
fn book_entry_renders_chicago_style() {
    let m = MatchedCitationDisambiguated {
        citation_raw: "Hegel 1991".to_string(),
        citation_author_date_disambiguated: "Hegel 1991".to_string(),
        year_disambiguated: "1991".to_string(),
        entry: book("hegel1991", "Hegel", "Georg", 1991),
    };
    let line = transform_book_entry(&m);
    assert_eq!(
        line,
        "Hegel, Georg. 1991. _Collected Works_. Cambridge: Cambridge University Press."
    );
}

#[test]
fn disambiguation_assigns_letters_in_key_order() {
    let bibliography = vec![
        book("hegel1931b", "Hegel", "Georg", 1931),
        book("hegel1931a", "Hegel", "Georg", 1931),
    ];
    let citations = vec![
        matched("@hegel1931b", bibliography[0].clone()),
        matched("@hegel1931a", bibliography[1].clone()),
    ];
    let disambiguated = disambiguate_matched_citations(citations);
    assert_eq!(disambiguated.len(), 2);
    assert_eq!(disambiguated[0].year_disambiguated, "1931b");
    assert_eq!(disambiguated[0].citation_author_date_disambiguated, "Hegel 1931b");
    assert_eq!(disambiguated[1].year_disambiguated, "1931a");
    assert_eq!(disambiguated[1].citation_author_date_disambiguated, "Hegel 1931a");
}

#[test]
fn disambiguation_is_reproducible_across_runs() {
    let run = || {
        let citations = vec![
            matched("Hegel 1931", book("hegel1931a", "Hegel", "Georg", 1931)),
            matched("@hegel1931b", book("hegel1931b", "Hegel", "Georg", 1931)),
        ];
        disambiguate_matched_citations(citations)
    };
    let first = run();
    let second = run();
    assert_eq!(first.len(), second.len());
    for (a, b) in first.iter().zip(second.iter()) {
        assert_eq!(a.citation_raw, b.citation_raw);
        assert_eq!(a.citation_author_date_disambiguated, b.citation_author_date_disambiguated);
        assert_eq!(a.year_disambiguated, b.year_disambiguated);
    }
}

#[test]
fn single_group_keeps_bare_year() {
    let citations = vec![matched("Hegel 1991", book("hegel1991", "Hegel", "Georg", 1991))];
    let disambiguated = disambiguate_matched_citations(citations);
    assert_eq!(disambiguated[0].year_disambiguated, "1991");
    assert_eq!(disambiguated[0].citation_author_date_disambiguated, "Hegel 1991");
}

#[test]
fn single_group_rewrites_key_citation_to_author_year() {
    let citations = vec![matched("@hegel1991", book("hegel1991", "Hegel", "Georg", 1991))];
    let disambiguated = disambiguate_matched_citations(citations);
    assert_eq!(disambiguated[0].year_disambiguated, "1991");
    assert_eq!(disambiguated[0].citation_author_date_disambiguated, "Hegel 1991");
}

#[test]
fn bibliography_sorts_case_insensitively_and_authorless_first() {
    let with_surname = |key: &str, surname: &str| MatchedCitationDisambiguated {
        citation_raw: key.to_string(),
        citation_author_date_disambiguated: key.to_string(),
        year_disambiguated: "2000".to_string(),
        entry: book(key, surname, "A", 2000),
    };
    let mut anon_entry = book("anon", "X", "X", 2000);
    anon_entry.authors = Some(Vec::new());
    let anon = MatchedCitationDisambiguated {
        citation_raw: "@anon".to_string(),
        citation_author_date_disambiguated: "@anon".to_string(),
        year_disambiguated: "2000".to_string(),
        entry: anon_entry,
    };
    let entries = vec![
        with_surname("k1", "zimmer"),
        with_surname("k2", "Adler"),
        anon,
        with_surname("k3", "BAUM"),
    ];
    let lines = entries_to_strings(&entries);
    assert_eq!(lines.len(), 4);
    // the author-less entry sorts first; then Adler, BAUM, zimmer
    assert!(lines[0].starts_with("2000."));
    assert!(lines[1].starts_with("Adler"));
    assert!(lines[2].starts_with("BAUM"));
    assert!(lines[3].starts_with("zimmer"));
}

#[test]
fn empty_payload_leaves_file_untouched() {
    let articles = vec![article("a.mdx", "A")];
    let (processed, outcome) = Prepyrus::process(&articles);
    assert_eq!(processed.len(), 1);
    assert!(processed[0].new_content.is_none());
    assert_eq!(outcome.total_empty_payloads, 1);
    assert_eq!(outcome.total_articles_processed, 0);
    assert_eq!(outcome.total_bibliographies_inserted, 0);
    assert_eq!(outcome.total_authors_inserted, 0);
    assert_eq!(outcome.total_notes_headings_inserted, 0);
}

#[test]
fn notes_heading_is_appended_for_footnotes() {
    let mut a = article("a.mdx", "A");
    a.markdown_content = "Some text with a note.[^1]".to_string();
    let articles = vec![a];
    let (processed, outcome) = Prepyrus::process(&articles);
    assert_eq!(outcome.total_notes_headings_inserted, 1);
    assert_eq!(outcome.total_articles_processed, 1);
    let content = processed[0].new_content.as_ref().unwrap();
    assert!(content.ends_with("\n\n**Notes**"));
    assert!(content.starts_with("---\n---\nBody."));
}

#[test]
fn index_groups_titles_by_letter_case_insensitively() {
    let articles = vec![
        article("apple-essay.mdx", "Apple Essay"),
        article("banana-notes.mdx", "banana Notes"),
        article("apple-pie.mdx", "apple Pie"),
    ];
    let payload = Prepyrus::gen_index_payload(&articles, None);
    let expected = "\n_This index contains **3 articles**, organized alphabetically by title. \
        Use the links below to jump to a section:_\n\n\
        [A](#a) · [B](#b)\n\n\
        \n## A\n\
        \n[Apple Essay](apple-essay)\n\
        \n[apple Pie](apple-pie)\n\
        \n## B\n\
        \n[banana Notes](banana-notes)\n";
    assert_eq!(payload, expected);
}

#[test]
fn index_link_prefix_is_rewritten() {
    let data = ArticleIndexData {
        path: "docs/src/foo.mdx".to_string(),
        index_title: "Foo".to_string(),
    };
    let rewrite = ("docs/src".to_string(), "articles".to_string());
    let entry = generate_index_entry(&data, Some(&rewrite));
    assert_eq!(entry, "\n[Foo](articles/foo)\n");
}

#[test]
fn prefix_rewrite_argument_is_split_at_colon() {
    let parsed = parse_prefix_rewrite("docs/src:articles").unwrap();
    assert_eq!(parsed, ("docs/src".to_string(), "articles".to_string()));
    assert!(parse_prefix_rewrite("no-colon-here").is_err());
}

fn doc(path: &str, body: &str, is_article: bool, index_title: Option<&str>) -> MdxDocument {
    MdxDocument {
        path: path.to_string(),
        metadata: MetadataUnverified {
            title: "T".to_string(),
            index_title: index_title.map(|t| t.to_string()),
            description: String::new(),
            is_article,
            authors: None,
            editors: None,
            contributors: None,
        },
        markdown_content: body.to_string(),
        full_file_content: format!("---\n---\n{}", body),
    }
}

#[test]
fn verify_resolves_citations_and_skips_non_articles() {
    let bibliography = vec![book("hegel1991", "Hegel", "Georg", 1991)];
    let docs = vec![
        doc("skip.mdx", "Not an article (Unknown 9999).", false, None),
        doc("a.mdx", "A citation (Hegel 1991, 12) here.", true, Some("A")),
    ];
    let articles = Prepyrus::verify(docs, &bibliography).unwrap();
    assert_eq!(articles.len(), 1);
    assert_eq!(articles[0].path, "a.mdx");
    assert_eq!(articles[0].entries_disambiguated.len(), 1);
    assert_eq!(articles[0].entries_disambiguated[0].citation_raw, "Hegel 1991");
    assert_eq!(articles[0].entries_disambiguated[0].year_disambiguated, "1991");
}

#[test]
fn verify_handles_key_and_see_citations() {
    let bibliography = vec![
        book("hegel1931a", "Hegel", "Georg", 1931),
        book("hegel1931b", "Hegel", "Georg", 1931),
    ];
    let docs = vec![doc(
        "a.mdx",
        "One work (see @hegel1931a, 12) and the other (@hegel1931b).",
        true,
        Some("A"),
    )];
    let articles = Prepyrus::verify(docs, &bibliography).unwrap();
    let cited = &articles[0].entries_disambiguated;
    assert_eq!(cited.len(), 2);
    assert_eq!(cited[0].citation_raw, "@hegel1931a");
    assert_eq!(cited[0].citation_author_date_disambiguated, "Hegel 1931a");
    assert_eq!(cited[0].year_disambiguated, "1931a");
    assert_eq!(cited[1].citation_raw, "@hegel1931b");
    assert_eq!(cited[1].citation_author_date_disambiguated, "Hegel 1931b");
    assert_eq!(cited[1].year_disambiguated, "1931b");
}

#[test]
fn ambiguous_author_year_citation_resolves_to_first_entry() {
    let bibliography = vec![
        book("hegel1931a", "Hegel", "Georg", 1931),
        book("hegel1931b", "Hegel", "Georg", 1931),
    ];
    let docs = vec![doc(
        "a.mdx",
        "Twice cited (Hegel 1931) and again (Hegel 1931, 44).",
        true,
        Some("A"),
    )];
    let articles = Prepyrus::verify(docs, &bibliography).unwrap();
    assert_eq!(articles[0].entries_disambiguated.len(), 1);
    assert_eq!(articles[0].entries_disambiguated[0].entry.key, "hegel1931a");
}

#[test]
fn unbalanced_document_is_rejected() {
    let docs = vec![doc("a.mdx", "Broken (((", true, Some("A"))];
    let err = Prepyrus::verify(docs, &Vec::new()).unwrap_err();
    assert!(matches!(err, VerifyError::UnbalancedParentheses { .. }));
}

#[test]
fn malformed_citation_is_rejected() {
    let docs = vec![doc("a.mdx", "A bad citation (Hegel 99).", true, Some("A"))];
    let err = Prepyrus::verify(docs, &Vec::new()).unwrap_err();
    match err {
        VerifyError::MalformedCitation { path, citation } => {
            assert_eq!(path, "a.mdx");
            assert_eq!(citation, "Hegel 99");
        }
        _ => panic!("unexpected error variant"),
    }
}

#[test]
fn unmatched_citation_is_rejected_with_its_name() {
    let docs = vec![doc("a.mdx", "An unknown work (Nietzsche 1888).", true, Some("A"))];
    let err = Prepyrus::verify(docs, &Vec::new()).unwrap_err();
    match err {
        VerifyError::UnmatchedCitations { path, citations } => {
            assert_eq!(path, "a.mdx");
            assert_eq!(citations, vec!["Nietzsche 1888"]);
        }
        _ => panic!("unexpected error variant"),
    }
}

#[test]
fn article_without_index_title_is_rejected() {
    let docs = vec![doc("a.mdx", "No citations here.", true, None)];
    let err = Prepyrus::verify(docs, &Vec::new()).unwrap_err();
    assert!(matches!(err, VerifyError::MissingMetadataField { .. }));
}

#[test]
fn build_config_validates_inputs() {
    let cli = |bib: &str, target: &str, mode: Mode| Cli {
        bib_file: bib.to_string(),
        target_path: target.to_string(),
        mode,
        ignore_paths: None,
        generate_index_to_file: None,
        index_link_prefix_rewrite: None,
    };
    let defaults = Settings { ignore_paths: Vec::new() };
    assert!(Prepyrus::build_config(
        cli("refs.bib", "docs", Mode::Verify),
        true,
        defaults.clone()
    )
    .is_ok());
    assert!(Prepyrus::build_config(
        cli("refs.txt", "docs", Mode::Verify),
        true,
        defaults.clone()
    )
    .is_err());
    assert!(Prepyrus::build_config(
        cli("refs.bib", "notes.txt", Mode::Verify),
        false,
        defaults.clone()
    )
    .is_err());
    let mut with_index = cli("refs.bib", "docs", Mode::Verify);
    with_index.generate_index_to_file = Some("index.mdx".to_string());
    assert!(Prepyrus::build_config(with_index, true, defaults).is_err());
}

#[test]
fn ignore_paths_filter_discovered_files() {
    let paths = vec![
        "docs/a.mdx".to_string(),
        "docs/dev/wip.mdx".to_string(),
        "docs/b.mdx".to_string(),
    ];
    let filtered = Utils::extract_paths(paths, Some(vec!["dev".to_string()]));
    assert_eq!(filtered, vec!["docs/a.mdx", "docs/b.mdx"]);
}

#[test]
fn pages_render_with_en_dash() {
    let pages = PermissiveType::Typed(vec![prepyrus::bibliography::PageRange {
        start: 10,
        end: 25,
    }]);
    let rendered = prepyrus::utils::BiblatexUtils::extract_pages(&pages);
    assert_eq!(rendered, "10–25");
}

#[test]
fn article_entry_renders_chicago_style() {
    let entry = Entry {
        key: "doe2001".to_string(),
        entry_type: EntryType::Article,
        authors: Some(vec![person("Doe", "Jane")]),
        date: Some(PermissiveType::Typed(Date { value: DateValue::At(2001) })),
        title: Some(vec![Chunk::Normal("On Things".to_string())]),
        publisher: None,
        address: None,
        journal: Some(vec![Chunk::Normal("Mind".to_string())]),
        volume: Some(PermissiveType::Typed(12)),
        number: Some(vec![Chunk::Normal("3".to_string())]),
        pages: Some(PermissiveType::Typed(vec![prepyrus::bibliography::PageRange {
            start: 100,
            end: 120,
        }])),
        translators: Some(vec![person("Smith", "John")]),
        doi: Some("10.1/xyz".to_string()),
    };
    let m = MatchedCitationDisambiguated {
        citation_raw: "Doe 2001".to_string(),
        citation_author_date_disambiguated: "Doe 2001a".to_string(),
        year_disambiguated: "2001a".to_string(),
        entry,
    };
    let line = prepyrus::transformers::transform_article_entry(&m);
    assert_eq!(
        line,
        "Doe, Jane. 2001a. \"On Things\". _Mind_ 12 (3): 100–120. \
         Translated by John Smith. https://doi.org/10.1/xyz."
    );
}

#[test]
fn book_entry_joins_doi_with_single_space() {
    let mut entry = book("hegel1991", "Hegel", "Georg", 1991);
    entry.doi = Some("10.1/abc".to_string());
    let m = MatchedCitationDisambiguated {
        citation_raw: "Hegel 1991".to_string(),
        citation_author_date_disambiguated: "Hegel 1991".to_string(),
        year_disambiguated: "1991".to_string(),
        entry,
    };
    let line = transform_book_entry(&m);
    assert_eq!(
        line,
        "Hegel, Georg. 1991. _Collected Works_. Cambridge: Cambridge University Press. \
         https://doi.org/10.1/abc."
    );
}

#[test]
fn bibliography_block_collapses_period_runs() {
    let mut entry = book("hegel1991", "Hegel", "Georg", 1991);
    entry.publisher = Some(vec![vec![Chunk::Normal("CUP.".to_string())]]);
    let entries = vec![MatchedCitationDisambiguated {
        citation_raw: "Hegel 1991".to_string(),
        citation_author_date_disambiguated: "Hegel 1991".to_string(),
        year_disambiguated: "1991".to_string(),
        entry,
    }];
    let block = prepyrus::inserters::generate_mdx_bibliography(&entries);
    assert_eq!(
        block,
        "\n## Bibliography\n\n<div className=\"text-sm\">\n\
         - Hegel, Georg. 1991. _Collected Works_. Cambridge: CUP.\n</div>\n"
    );
}

#[test]
fn bibliography_block_collapses_longer_period_runs() {
    let mut entry = book("hegel1991", "Hegel", "Georg", 1991);
    entry.publisher = Some(vec![vec![Chunk::Normal("CUP...".to_string())]]);
    let entries = vec![MatchedCitationDisambiguated {
        citation_raw: "Hegel 1991".to_string(),
        citation_author_date_disambiguated: "Hegel 1991".to_string(),
        year_disambiguated: "1991".to_string(),
        entry,
    }];
    let block = prepyrus::inserters::generate_mdx_bibliography(&entries);
    assert_eq!(
        block,
        "\n## Bibliography\n\n<div className=\"text-sm\">\n\
         - Hegel, Georg. 1991. _Collected Works_. Cambridge: CUP.\n</div>\n"
    );
}

#[test]
fn author_metadata_block_is_appended() {
    let mut a = article("a.mdx", "A");
    a.metadata.authors = Some("Jane Doe".to_string());
    let articles = vec![a];
    let (processed, outcome) = Prepyrus::process(&articles);
    assert_eq!(outcome.total_authors_inserted, 1);
    assert_eq!(outcome.total_articles_processed, 1);
    let content = processed[0].new_content.as_ref().unwrap();
    assert!(content.ends_with("\n\n**Authors**  \nJane Doe\n"));
}

#[test]
fn suffixes_continue_with_two_letters_beyond_z() {
    let mut citations = Vec::new();
    for i in 0..27 {
        let key = format!("k{:02}", i);
        citations.push(matched(&format!("@{}", key), book(&key, "Hegel", "Georg", 1931)));
    }
    let disambiguated = disambiguate_matched_citations(citations);
    assert_eq!(disambiguated[0].year_disambiguated, "1931a");
    assert_eq!(disambiguated[25].year_disambiguated, "1931z");
    assert_eq!(disambiguated[26].year_disambiguated, "1931aa");
}

#[test]
fn year_extraction_reports_failure_with_reference() {
    let date: PermissiveType<Date> = PermissiveType::Other;
    let err = prepyrus::utils::BiblatexUtils::extract_year_from_date(&date, "kant1781".to_string())
        .unwrap_err();
    assert_eq!(err, "Unable to retrieve year for: kant1781");
}
