use prepyrus::scanner::extract_citations_from_markdown;

#[test]
fn single_citation() {
    let markdown = String::from("This is a citation (Hegel 2021) in the text.");
    let citations = extract_citations_from_markdown(&markdown);
    assert_eq!(citations, vec!["Hegel 2021"]);
}

#[test]
fn single_citation_key() {
    let markdown = String::from("This is a citation (@hegel1991logic) in the text.");
    let citations = extract_citations_from_markdown(&markdown);
    assert_eq!(citations, vec!["@hegel1991logic"]);
}

#[test]
fn single_citation_prefixed_see() {
    let markdown = String::from("This is a citation (see Hegel 2021) in the text.");
    let citations = extract_citations_from_markdown(&markdown);
    assert_eq!(citations, vec!["Hegel 2021"]);
}

#[test]
fn multiple_citations() {
    let markdown =
        String::from("This is a citation (Spinoza 2021) and another one (Kant 2020, 123).");
    let citations = extract_citations_from_markdown(&markdown);
    assert_eq!(citations, vec!["Spinoza 2021", "Kant 2020, 123"]);
}

#[test]
fn multiple_citations_with_key() {
    let markdown = String::from(
        "This is a citation (@spinoza2021logic) and another one (@kant2020logic, 123).",
    );
    let citations = extract_citations_from_markdown(&markdown);
    assert_eq!(citations, vec!["@spinoza2021logic", "@kant2020logic, 123"]);
}

#[test]
fn multiple_citations_prefixed_see() {
    let markdown = String::from(
        "This is a citation (see Spinoza 2021) and another one (see Kant 2020, 123).",
    );
    let citations = extract_citations_from_markdown(&markdown);
    assert_eq!(citations, vec!["Spinoza 2021", "Kant 2020, 123"]);
}

#[test]
fn multiple_citations_mixed_prefixed_see() {
    let markdown = String::from(
        "This is a citation (see Spinoza 2021) and another one (see @kant2020logic, 123).",
    );
    let citations = extract_citations_from_markdown(&markdown);
    assert_eq!(citations, vec!["Spinoza 2021", "@kant2020logic, 123"]);
}

#[test]
fn no_citation() {
    let markdown = String::from("This text has no citations.");
    let citations = extract_citations_from_markdown(&markdown);
    assert_eq!(citations, Vec::<String>::new());
}

#[test]
fn citation_with_additional_text() {
    let markdown = String::from("This citation (Plato 2019) has additional text.");
    let citations = extract_citations_from_markdown(&markdown);
    assert_eq!(citations, vec!["Plato 2019"]);
}

#[test]
fn multiple_lines() {
    let markdown = String::from(
        "First citation (Aristotle 2020).\n\
        Second citation on a new line (Hume 2018).\n\
        No citation here.",
    );
    let citations = extract_citations_from_markdown(&markdown);
    assert_eq!(citations, vec!["Aristotle 2020", "Hume 2018"]);
}

#[test]
fn incomplete_citation_opening_parenthesis_only() {
    let markdown = String::from("This is an incomplete citation (Spinoza 2021.");
    let valid_citations = extract_citations_from_markdown(&markdown);
    assert!(valid_citations.is_empty());
}

#[test]
fn incomplete_citation_closing_parenthesis_only() {
    let markdown = String::from("This is an incomplete citation Descartes 2021).");
    let valid_citations = extract_citations_from_markdown(&markdown);
    assert!(valid_citations.is_empty());
}

#[test]
fn mixed_valid_and_invalid_citations() {
    let markdown =
        String::from("Valid citation (Sartre 2021). Incomplete citation Derrida 2021).");
    let valid_citations = extract_citations_from_markdown(&markdown);
    assert_eq!(valid_citations, vec!["Sartre 2021"]);
}

#[test]
fn cross_line_marker_yields_nothing() {
    let markdown = String::from("An opening (Hegel\n2021) across lines.");
    let citations = extract_citations_from_markdown(&markdown);
    assert!(citations.is_empty());
}
