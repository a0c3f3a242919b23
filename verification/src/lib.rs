//! Citation verification and processing for documents in an extended markup
//! format with Chicago author-date citations.
//!
//! The library scans document text for citation markers, matches them against
//! a bibliography, resolves same-author same-year collisions with
//! deterministic letter suffixes, renders bibliography sections, and
//! assembles per-document append payloads plus an alphabetical index.

pub mod bibliography;
pub mod cli;
pub mod errors;
pub mod inserters;
pub mod scanner;
pub mod text;
pub mod transformers;
pub mod utils;
pub mod validators;

use vstd::prelude::*;

use crate::bibliography::Entry;
use crate::cli::Cli;
use crate::errors::VerifyError;
use crate::inserters::{InserterOutcome, ProcessedArticle};
use crate::utils::{Config, Settings, Utils};
use crate::validators::{ArticleFileData, MdxDocument};

verus! {

/// Main interface of the citation tool: configuration, path filtering,
/// verification of documents against a bibliography, and assembly of the
/// payloads that the surrounding I/O layer writes back.
pub struct Prepyrus {}

impl Prepyrus {
    /// Builds the configuration of a run. The caller supplies whether the
    /// target path is a directory and the settings to fall back on when
    /// no ignore paths were given on the command line.
    pub fn build_config(cli: Cli, target_is_dir: bool, default_settings: Settings) -> (r: Result<
        Config,
        &'static str,
    >)
        ensures
            match r {
                Ok(c) => {
                    &&& crate::text::ends_with(cli.bib_file@, ".bib"@)
                    &&& target_is_dir || crate::text::ends_with(cli.target_path@, ".mdx"@)
                    &&& cli.generate_index_to_file is Some ==> cli.mode
                        == crate::cli::Mode::Process
                    &&& c.bib_file@ == cli.bib_file@
                    &&& c.target_path@ == cli.target_path@
                    &&& c.mode == cli.mode
                    &&& c.settings.ignore_paths.deep_view() == match cli.ignore_paths {
                        Some(paths) => paths.deep_view(),
                        None => default_settings.ignore_paths.deep_view(),
                    }
                },
                Err(m) => {
                    if !crate::text::ends_with(cli.bib_file@, ".bib"@) {
                        m@ == "Invalid file format. Please provide a file with .bib extension."@
                    } else if !target_is_dir && !crate::text::ends_with(
                        cli.target_path@,
                        ".mdx"@,
                    ) {
                        m@ == "Invalid target. Please provide a directory or a single MDX file."@
                    } else {
                        cli.generate_index_to_file is Some && cli.mode != crate::cli::Mode::Process
                            && m@
                            == "--generate-index-file can only be used when mode is 'process'"@
                    }
                },
            },
    {
        Utils::build_config(cli, target_is_dir, default_settings)
    }

    /// Filters the discovered document paths against the optional ignore
    /// list; directory traversal is the I/O layer's part.
    pub fn get_mdx_paths(mdx_paths: Vec<String>, ignore_paths: Option<Vec<String>>) -> (r: Vec<
        String,
    >)
        ensures
            r.deep_view() == crate::utils::kept_paths(
                mdx_paths.deep_view(),
                match ignore_paths {
                    Some(ex) => ex.deep_view(),
                    None => Seq::<Seq<char>>::empty(),
                },
            ),
    {
        Utils::extract_paths(mdx_paths, ignore_paths)
    }

    /// Verifies the loaded documents and their citations against the
    /// bibliography entries, resolving and disambiguating every citation
    /// of every article; the first failing document rejects the run.
    pub fn verify(docs: Vec<MdxDocument>, all_entries: &Vec<Entry>) -> (r: Result<
        Vec<ArticleFileData>,
        VerifyError,
    >)
        ensures
            match r {
                Ok(articles) => {
                    &&& forall|i: int|
                        0 <= i < docs.deep_view().len() ==> !(crate::validators::doc_outcome(
                            #[trigger] docs.deep_view()[i],
                            all_entries.deep_view(),
                        ) is Rejected)
                    &&& articles.deep_view() == crate::validators::verified_upto(
                        docs.deep_view(),
                        all_entries.deep_view(),
                        docs.deep_view().len() as int,
                    )
                },
                Err(e) => exists|i: int|
                    {
                        &&& 0 <= i < docs.deep_view().len()
                        &&& crate::validators::doc_outcome(
                            #[trigger] docs.deep_view()[i],
                            all_entries.deep_view(),
                        ) == crate::validators::DocOutcome::Rejected(e@)
                        &&& forall|j: int|
                            0 <= j < i ==> !(crate::validators::doc_outcome(
                                #[trigger] docs.deep_view()[j],
                                all_entries.deep_view(),
                            ) is Rejected)
                    },
            },
    {
        crate::validators::verify_mdx_files(docs, all_entries)
    }

    /// Builds each article's new file content (the original content plus
    /// its append payload) and tallies the outcome; an article with an
    /// empty payload is left untouched. Writing is the caller's part.
    pub fn process(all_articles: &Vec<ArticleFileData>) -> (r: (Vec<ProcessedArticle>,
        InserterOutcome))
        ensures
            r.0.deep_view().len() == all_articles.deep_view().len(),
            forall|i: int|
                0 <= i < all_articles.deep_view().len() ==> {
                    &&& (#[trigger] r.0.deep_view()[i]).path == all_articles.deep_view()[i].path
                    &&& r.0.deep_view()[i].new_content == crate::inserters::processed_content(
                        all_articles.deep_view()[i],
                    )
                },
            r.1.total_articles_processed + r.1.total_empty_payloads
                == all_articles.deep_view().len(),
    {
        crate::inserters::process_mdx_files(all_articles)
    }

    /// Builds the alphabetical index payload over the verified articles;
    /// the caller appends it to the index file.
    pub fn gen_index_payload(
        all_articles: &Vec<ArticleFileData>,
        rewrite: Option<&(String, String)>,
    ) -> (r: String)
        ensures
            r@ == crate::inserters::index_payload(
                all_articles.deep_view(),
                crate::inserters::rewrite_view(rewrite),
            ),
    {
        crate::inserters::generate_index_payload(all_articles, rewrite)
    }
}

} // verus!
