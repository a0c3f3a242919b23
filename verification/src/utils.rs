//! Field-extraction helpers for permissive bibliography fields, and the
//! configuration and path-filtering logic around a run. Reading the
//! bibliography file, walking directories and loading settings belong to
//! the surrounding I/O layer; the functions here do the part that is pure
//! computation.

use vstd::prelude::*;

use crate::bibliography::{Chunk, Date, PageRange, PermissiveType, year_of_date};
use crate::cli::{Cli, Mode};
use crate::text::{
    chars_to_string, contains_sub, dec_rep, ends_with, ends_with_exec, push_all, push_u64_dec,
    str_to_chars,
};

verus! {

/// Helpers for values of the bibliographic data model.
pub struct BiblatexUtils;

/// Helpers for configuration and paths.
pub struct Utils;

/// The configuration of one run.
#[derive(Debug, Clone)]
pub struct Config {
    pub bib_file: String,
    pub target_path: String,
    pub mode: Mode,
    pub settings: Settings,
    pub generate_index_file: Option<String>,
    pub index_link_prefix_rewrite: Option<(String, String)>,
}

/// Persisted settings; loaded or created by the I/O layer.
#[derive(Debug, Clone)]
pub struct Settings {
    pub ignore_paths: Vec<String>,
}

/// Marks a test run when settings would otherwise be read from disk.
pub enum LoadOrCreateSettingsTestMode {
    Test,
}

/// The flattened text of a formatted field: the normal pieces,
/// concatenated.
pub open spec fn chunks_text(cs: Seq<crate::bibliography::ChunkV>) -> Seq<char>
    decreases cs.len(),
{
    if cs.len() == 0 {
        seq![]
    } else {
        chunks_text(cs.drop_last()) + match cs.last() {
            crate::bibliography::ChunkV::Normal(s) => s,
            crate::bibliography::ChunkV::Verbatim(_s) => seq![],
            crate::bibliography::ChunkV::Math(_s) => seq![],
        }
    }
}

/// The flattened text of a list of formatted fields.
pub open spec fn chunk_lists_text(ls: Seq<Seq<crate::bibliography::ChunkV>>) -> Seq<char>
    decreases ls.len(),
{
    if ls.len() == 0 {
        seq![]
    } else {
        chunk_lists_text(ls.drop_last()) + chunks_text(ls.last())
    }
}

/// The written form of a list of page ranges: `start–end`, one after
/// another.
pub open spec fn pages_text(rs: Seq<PageRange>) -> Seq<char>
    decreases rs.len(),
{
    if rs.len() == 0 {
        seq![]
    } else {
        pages_text(rs.drop_last()) + dec_rep(rs.last().start as int) + seq!['–'] + dec_rep(
            rs.last().end as int,
        )
    }
}

impl BiblatexUtils {
    /// Extracts the year from a date inside a permissive field; a date in
    /// any other representation yields an error naming the reference.
    pub fn extract_year_from_date(date: &PermissiveType<Date>, reference: String) -> (r: Result<
        i32,
        String,
    >)
        ensures
            match r {
                Ok(y) => year_of_date(*date) == Some(y as int),
                Err(m) => year_of_date(*date) is None && m@ == "Unable to retrieve year for: "@
                    + reference@,
            },
    {
        match date {
            PermissiveType::Typed(d) => match d.value {
                crate::bibliography::DateValue::At(y) => Ok(y),
                crate::bibliography::DateValue::After(y) => Ok(y),
                crate::bibliography::DateValue::Before(y) => Ok(y),
                crate::bibliography::DateValue::Between(y, _end) => Ok(y),
            },
            PermissiveType::Other => {
                let mut msg = str_to_chars("Unable to retrieve year for: ");
                let rest = str_to_chars(reference.as_str());
                push_all(&mut msg, &rest);
                Err(chars_to_string(&msg))
            },
        }
    }

    /// Extracts a volume number from a permissive field; any other
    /// representation counts as volume 0.
    pub fn extract_volume(volume: &PermissiveType<i64>) -> (r: i64)
        ensures
            r == match *volume {
                PermissiveType::Typed(v) => v,
                PermissiveType::Other => 0,
            },
    {
        match volume {
            PermissiveType::Typed(v) => *v,
            PermissiveType::Other => 0i64,
        }
    }

    /// Writes out the page ranges of a permissive field; any other
    /// representation yields the empty string.
    pub fn extract_pages(pages: &PermissiveType<Vec<PageRange>>) -> (r: String)
        ensures
            r@ == match *pages {
                PermissiveType::Typed(rs) => pages_text(rs@),
                PermissiveType::Other => Seq::<char>::empty(),
            },
    {
        match pages {
            PermissiveType::Typed(rs) => {
                let mut out: Vec<char> = Vec::new();
                let mut i: usize = 0;
                while i < rs.len()
                    invariant
                        i <= rs.len(),
                        out@ == pages_text(rs@.subrange(0, i as int)),
                    decreases rs.len() - i,
                {
                    let pr = rs[i];
                    push_u64_dec(&mut out, pr.start as u64);
                    out.push('–');
                    push_u64_dec(&mut out, pr.end as u64);
                    proof {
                        let sub = rs@.subrange(0, i + 1);
                        assert(sub.drop_last() =~= rs@.subrange(0, i as int));
                        assert(sub.last() == rs@[i as int]);
                        assert(out@ =~= pages_text(sub));
                    }
                    i += 1;
                }
                proof {
                    assert(rs@.subrange(0, rs@.len() as int) =~= rs@);
                }
                chars_to_string(&out)
            },
            PermissiveType::Other => {
                let out: Vec<char> = Vec::new();
                chars_to_string(&out)
            },
        }
    }

    /// Flattens a formatted field to its normal text.
    pub fn extract_spanned_chunk(spanned_chunk: &Vec<Chunk>) -> (r: String)
        ensures
            r@ == chunks_text(spanned_chunk.deep_view()),
    {
        let mut out: Vec<char> = Vec::new();
        let mut i: usize = 0;
        while i < spanned_chunk.len()
            invariant
                i <= spanned_chunk.len(),
                out@ == chunks_text(spanned_chunk.deep_view().subrange(0, i as int)),
            decreases spanned_chunk.len() - i,
        {
            match &spanned_chunk[i] {
                Chunk::Normal(s) => {
                    let piece = str_to_chars(s.as_str());
                    push_all(&mut out, &piece);
                },
                Chunk::Verbatim(_s) => {},
                Chunk::Math(_s) => {},
            }
            proof {
                let dv = spanned_chunk.deep_view();
                let sub = dv.subrange(0, i + 1);
                assert(sub.drop_last() =~= dv.subrange(0, i as int));
                assert(sub.last() == dv[i as int]);
                assert(dv[i as int] == spanned_chunk@[i as int]@);
                assert(out@ =~= chunks_text(sub));
            }
            i += 1;
        }
        proof {
            let dv = spanned_chunk.deep_view();
            assert(dv.subrange(0, dv.len() as int) =~= dv);
        }
        chars_to_string(&out)
    }

    /// Flattens a publisher field, a list of formatted fields, to its
    /// normal text.
    pub fn extract_publisher(publisher_data: &Vec<Vec<Chunk>>) -> (r: String)
        ensures
            r@ == chunk_lists_text(publisher_data.deep_view()),
    {
        let mut out: Vec<char> = Vec::new();
        let mut i: usize = 0;
        while i < publisher_data.len()
            invariant
                i <= publisher_data.len(),
                out@ == chunk_lists_text(publisher_data.deep_view().subrange(0, i as int)),
            decreases publisher_data.len() - i,
        {
            let piece = Self::extract_spanned_chunk(&publisher_data[i]);
            let piece_chars = str_to_chars(piece.as_str());
            push_all(&mut out, &piece_chars);
            proof {
                let dv = publisher_data.deep_view();
                let sub = dv.subrange(0, i + 1);
                assert(sub.drop_last() =~= dv.subrange(0, i as int));
                assert(sub.last() == dv[i as int]);
                assert(dv[i as int] =~= publisher_data@[i as int].deep_view());
                assert(out@ =~= chunk_lists_text(sub));
            }
            i += 1;
        }
        proof {
            let dv = publisher_data.deep_view();
            assert(dv.subrange(0, dv.len() as int) =~= dv);
        }
        chars_to_string(&out)
    }
}

/// A path is kept when no exception is a substring of it.
pub open spec fn path_kept(path: Seq<char>, exceptions: Seq<Seq<char>>) -> bool {
    forall|k: int| 0 <= k < exceptions.len() ==> !contains_sub(path, exceptions[k])
}

/// The paths that survive filtering against the exceptions, in order.
pub open spec fn kept_paths(paths: Seq<Seq<char>>, exceptions: Seq<Seq<char>>) -> Seq<Seq<char>> {
    paths.filter(|p: Seq<char>| path_kept(p, exceptions))
}

impl Utils {
    /// Filters the discovered document paths: a path containing any of the
    /// exception paths is dropped. Directory discovery itself is done by
    /// the I/O layer, which hands the raw list in.
    pub fn filter_mdx_paths_for_exceptions(mdx_paths: Vec<String>, exceptions: Vec<String>) -> (r:
        Vec<String>)
        ensures
            r.deep_view() == kept_paths(mdx_paths.deep_view(), exceptions.deep_view()),
    {
        let mut kept: Vec<String> = Vec::new();
        proof {
            reveal(Seq::filter);
            assert(mdx_paths.deep_view().subrange(0, 0) =~= Seq::<Seq<char>>::empty());
            assert(kept.deep_view() =~= kept_paths(
                mdx_paths.deep_view().subrange(0, 0),
                exceptions.deep_view(),
            ));
        }
        let mut i: usize = 0;
        while i < mdx_paths.len()
            invariant
                i <= mdx_paths.len(),
                kept.deep_view() == kept_paths(
                    mdx_paths.deep_view().subrange(0, i as int),
                    exceptions.deep_view(),
                ),
            decreases mdx_paths.len() - i,
        {
            let path_chars = str_to_chars(mdx_paths[i].as_str());
            let mut excluded = false;
            let mut j: usize = 0;
            while j < exceptions.len()
                invariant
                    j <= exceptions.len(),
                    i < mdx_paths@.len(),
                    path_chars@ == mdx_paths.deep_view()[i as int],
                    excluded ==> !path_kept(mdx_paths.deep_view()[i as int], exceptions.deep_view()),
                    !excluded ==> forall|k: int|
                        0 <= k < j ==> !contains_sub(
                            mdx_paths.deep_view()[i as int],
                            exceptions.deep_view()[k],
                        ),
                decreases exceptions.len() - j,
            {
                let exc_chars = str_to_chars(exceptions[j].as_str());
                if crate::text::contains_sub_exec(&path_chars, &exc_chars) {
                    proof {
                        assert(exc_chars@ == exceptions.deep_view()[j as int]);
                    }
                    excluded = true;
                }
                j += 1;
            }
            let ghost dv = mdx_paths.deep_view();
            let ghost prev = kept.deep_view();
            if !excluded {
                kept.push(mdx_paths[i].clone());
            }
            proof {
                let pred = |p: Seq<char>| path_kept(p, exceptions.deep_view());
                let sub = dv.subrange(0, i + 1);
                assert(sub.drop_last() =~= dv.subrange(0, i as int));
                assert(sub.last() == dv[i as int]);
                reveal(Seq::filter);
                if !excluded {
                    assert(pred(dv[i as int]));
                    assert(kept.deep_view() =~~= prev.push(dv[i as int]));
                } else {
                    assert(!pred(dv[i as int]));
                }
                assert(kept.deep_view() =~= kept_paths(sub, exceptions.deep_view()));
            }
            i += 1;
        }
        proof {
            assert(mdx_paths.deep_view().subrange(0, mdx_paths.deep_view().len() as int)
                =~= mdx_paths.deep_view());
        }
        kept
    }

    /// Builds the configuration of a run from the command-line values.
    /// Whether the target path is a directory is a fact about the file
    /// system, so the caller establishes it and passes it in; likewise the
    /// settings used when no ignore paths were given come from the caller,
    /// which loads or creates them.
    pub fn build_config(cli: Cli, target_is_dir: bool, default_settings: Settings) -> (r: Result<
        Config,
        &'static str,
    >)
        ensures
            match r {
                Ok(c) => {
                    &&& ends_with(cli.bib_file@, ".bib"@)
                    &&& target_is_dir || ends_with(cli.target_path@, ".mdx"@)
                    &&& cli.generate_index_to_file is Some ==> cli.mode == Mode::Process
                    &&& c.bib_file@ == cli.bib_file@
                    &&& c.target_path@ == cli.target_path@
                    &&& c.mode == cli.mode
                    &&& c.settings.ignore_paths.deep_view() == match cli.ignore_paths {
                        Some(paths) => paths.deep_view(),
                        None => default_settings.ignore_paths.deep_view(),
                    }
                    &&& match (c.generate_index_file, cli.generate_index_to_file) {
                        (Some(a), Some(b)) => a@ == b@,
                        (None, None) => true,
                        _ => false,
                    }
                    &&& match (c.index_link_prefix_rewrite, cli.index_link_prefix_rewrite) {
                        (Some(a), Some(b)) => a.0@ == b.0@ && a.1@ == b.1@,
                        (None, None) => true,
                        _ => false,
                    }
                },
                Err(m) => {
                    if !ends_with(cli.bib_file@, ".bib"@) {
                        m@ == "Invalid file format. Please provide a file with .bib extension."@
                    } else if !target_is_dir && !ends_with(cli.target_path@, ".mdx"@) {
                        m@ == "Invalid target. Please provide a directory or a single MDX file."@
                    } else {
                        cli.generate_index_to_file is Some && cli.mode != Mode::Process && m@
                            == "--generate-index-file can only be used when mode is 'process'"@
                    }
                },
            },
    {
        let bib_chars = str_to_chars(cli.bib_file.as_str());
        let bib_suffix = str_to_chars(".bib");
        if !ends_with_exec(&bib_chars, &bib_suffix) {
            return Err("Invalid file format. Please provide a file with .bib extension.");
        }
        let target_chars = str_to_chars(cli.target_path.as_str());
        let mdx_suffix = str_to_chars(".mdx");
        if !target_is_dir && !ends_with_exec(&target_chars, &mdx_suffix) {
            return Err("Invalid target. Please provide a directory or a single MDX file.");
        }
        if cli.mode != Mode::Verify && cli.mode != Mode::Process {
            return Err("Invalid mode. Please provide either 'verify' or 'process'.");
        }
        if cli.generate_index_to_file.is_some() && cli.mode != Mode::Process {
            return Err("--generate-index-file can only be used when mode is 'process'");
        }
        let settings = match cli.ignore_paths {
            Some(paths) => Settings { ignore_paths: paths },
            None => default_settings,
        };
        Ok(
            Config {
                bib_file: cli.bib_file,
                target_path: cli.target_path,
                mode: cli.mode,
                settings,
                generate_index_file: cli.generate_index_to_file,
                index_link_prefix_rewrite: cli.index_link_prefix_rewrite,
            },
        )
    }

    /// Filters a list of discovered document paths against the optional
    /// ignore list.
    pub fn extract_paths(mdx_paths: Vec<String>, ignore_paths: Option<Vec<String>>) -> (r: Vec<
        String,
    >)
        ensures
            r.deep_view() == kept_paths(
                mdx_paths.deep_view(),
                match ignore_paths {
                    Some(ex) => ex.deep_view(),
                    None => Seq::<Seq<char>>::empty(),
                },
            ),
    {
        let exceptions = match ignore_paths {
            Some(ex) => ex,
            None => Vec::new(),
        };
        proof {
            assert(exceptions.deep_view() =~~= match ignore_paths {
                Some(ex) => ex.deep_view(),
                None => Seq::<Seq<char>>::empty(),
            });
        }
        Self::filter_mdx_paths_for_exceptions(mdx_paths, exceptions)
    }
}

} // verus!
