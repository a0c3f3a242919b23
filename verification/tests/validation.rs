use prepyrus::bibliography::{Date, DateValue, Entry, EntryType, PermissiveType, Person};
use prepyrus::errors::CitationError;
use prepyrus::validators::{
    check_parentheses_balance, create_citations_set, match_citations_to_bibliography,
    split_front_matter, verify_citations_format,
};

#[test]
fn balanced_parentheses() {
    let markdown = String::from("This is a balanced citation (Spinoza 2021).");
    assert!(check_parentheses_balance(&markdown));
}

#[test]
fn unbalanced_parentheses_more_open() {
    let markdown = String::from("This is an unbalanced citation (Spinoza 2021.");
    assert!(!check_parentheses_balance(&markdown));
}

#[test]
fn unbalanced_parentheses_more_close() {
    let markdown = String::from("This is an unbalanced citation Spinoza 2021).");
    assert!(!check_parentheses_balance(&markdown));
}

#[test]
fn valid_citations() {
    let citations = vec!["Hegel 2021".to_string(), "Kant 2020, 123".to_string()];
    assert!(verify_citations_format(&citations).is_ok());
}

#[test]
fn missing_year() {
    let citations = vec!["Hegel".to_string(), "Kant 2020, 123".to_string()];
    assert!(verify_citations_format(&citations).is_err());
}

#[test]
fn invalid_citation_extra_comma() {
    let citations = vec![
        "Hegel 2021".to_string(),
        "Kant 2020, 123".to_string(),
        "Hume, 2020".to_string(),
    ];
    assert!(verify_citations_format(&citations).is_err());
}

#[test]
fn valid_citations_set() {
    let citations = vec![
        "Hegel 2021".to_string(),
        "Kant 2020, 123".to_string(),
        "Hegel 2021".to_string(),
        "Hegel 2021, 1234".to_string(),
        "Hegel 2021, 99".to_string(),
    ];
    let citations_set = create_citations_set(citations);
    assert_eq!(citations_set, vec!["Hegel 2021", "Kant 2020"]);
}

#[test]
fn empty_citations_set() {
    let citations = Vec::<String>::new();
    let citations_set = create_citations_set(citations);
    assert!(citations_set.is_empty());
}

#[test]
fn invalid_citations_set() {
    let citations = vec!["Hegel 2021".to_string(), "Kant, 2020, 123".to_string()];
    let citations_set = create_citations_set(citations);
    assert_eq!(citations_set, vec!["Hegel 2021", "Kant"]);
}

fn book(key: &str, surname: &str, given: &str, year: i32) -> Entry {
    Entry {
        key: key.to_string(),
        entry_type: EntryType::Book,
        authors: Some(vec![Person { name: surname.to_string(), given_name: given.to_string() }]),
        date: Some(PermissiveType::Typed(Date { value: DateValue::At(year) })),
        title: None,
        publisher: None,
        address: None,
        journal: None,
        volume: None,
        number: None,
        pages: None,
        translators: None,
        doi: None,
    }
}

#[test]
fn match_by_author_year_and_key() {
    let bibliography = vec![
        book("hegel1991logic", "Hegel", "Georg", 1991),
        book("kant1781critique", "Kant", "Immanuel", 1781),
    ];
    let citations = vec!["Hegel 1991".to_string(), "@kant1781critique".to_string()];
    let matched = match_citations_to_bibliography(citations, &bibliography).unwrap();
    assert_eq!(matched.len(), 2);
    assert_eq!(matched[0].citation_raw, "Hegel 1991");
    assert_eq!(matched[0].entry.key, "hegel1991logic");
    assert_eq!(matched[1].citation_raw, "@kant1781critique");
    assert_eq!(matched[1].entry.key, "kant1781critique");
}

#[test]
fn unmatched_citations_are_all_reported() {
    let bibliography = vec![book("hegel1991logic", "Hegel", "Georg", 1991)];
    let citations = vec![
        "Hegel 1991".to_string(),
        "Nietzsche 1888".to_string(),
        "@missingkey".to_string(),
    ];
    let err = match_citations_to_bibliography(citations, &bibliography).unwrap_err();
    match err {
        CitationError::UnmatchedCitations(unmatched) => {
            assert_eq!(unmatched, vec!["Nietzsche 1888", "@missingkey"]);
        }
        CitationError::AmbiguousMatch(_) => panic!("unexpected error variant"),
    }
}

#[test]
fn entry_without_author_never_matches_author_year() {
    let mut entry = book("anon2000", "Anon", "A", 2000);
    entry.authors = Some(Vec::new());
    let bibliography = vec![entry];
    let citations = vec!["Anon 2000".to_string()];
    assert!(match_citations_to_bibliography(citations, &bibliography).is_err());
}

#[test]
fn front_matter_is_split_at_fences() {
    let content = "---\ntitle: T\n---\nBody text.";
    let (metadata, body) = split_front_matter(content).unwrap();
    assert_eq!(metadata, "\ntitle: T\n");
    assert_eq!(body, "\nBody text.");
}

#[test]
fn front_matter_missing_fence_is_rejected() {
    let content = "---\ntitle: T\nBody text.";
    assert!(split_front_matter(content).is_none());
}
