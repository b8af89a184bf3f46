//! The search: the lines of a text in which a query occurs.

use crate::config::Config;
use crate::lines::{lines_of, next_line};
use crate::lowercase::{fold, folded};
use crate::matching::{
    lemma_empty_query_finds_every_line, lemma_empty_text_has_no_hits, lemma_line_taken,
    lemma_matching_none, lemma_matching_push, matching, matching_lines,
};
use crate::substring::contains;
use vstd::prelude::*;
use vstd::string::*;

verus! {

/// The lines of `contents` in which `query` occurs, in their order. Each is a
/// part of `contents`, not a copy.
pub fn search<'a>(query: &str, contents: &'a str) -> (found: Vec<&'a str>)
    ensures
        found.deep_view() == matching_lines(query@, contents@, false),
        query@.len() == 0 ==> found.deep_view() == lines_of(contents@),
        contents@.len() == 0 ==> found@.len() == 0,
{
    let mut found: Vec<&'a str> = Vec::new();
    let mut rest = contents;
    let ghost mut seen: Seq<Seq<char>> = Seq::empty();
    proof {
        lemma_matching_none(query@, false);
        assert(found.deep_view() =~= matching(seen, query@, false));
        assert(seen + lines_of(rest@) =~= lines_of(contents@));
    }
    loop
        invariant
            lines_of(contents@) == seen + lines_of(rest@),
            found.deep_view() == matching(seen, query@, false),
        ensures
            found.deep_view() == matching_lines(query@, contents@, false),
        decreases rest@.len(),
    {
        match next_line(rest) {
            None => {
                proof {
                    assert(seen + lines_of(rest@) =~= seen);
                }
                break ;
            },
            Some((line, tail)) => {
                proof {
                    lemma_line_taken(contents@, seen, rest@);
                    lemma_matching_push(seen, line@, query@, false);
                    seen = seen.push(line@);
                }
                if contains(line, query) {
                    let ghost hits = found.deep_view();
                    found.push(line);
                    proof {
                        assert(found.deep_view() =~= hits.push(line@));
                    }
                }
                rest = tail;
            },
        }
    }
    proof {
        if query@.len() == 0 {
            assert(query@ =~= Seq::<char>::empty());
            lemma_empty_query_finds_every_line(contents@, false);
        }
        if contents@.len() == 0 {
            assert(contents@ =~= Seq::<char>::empty());
            lemma_empty_text_has_no_hits(query@, false);
        }
    }
    found
}

/// The lines of `contents` whose folded form holds the folded form of
/// `query`, in their order. Each is a part of `contents` as it stands there,
/// not its folded form.
pub fn search_case_insensitive<'a>(query: &str, contents: &'a str) -> (found: Vec<&'a str>)
    ensures
        found.deep_view() == matching_lines(query@, contents@, true),
        query@.len() == 0 ==> found.deep_view() == lines_of(contents@),
        contents@.len() == 0 ==> found@.len() == 0,
{
    let needle = fold(query);
    let mut found: Vec<&'a str> = Vec::new();
    let mut rest = contents;
    let ghost mut seen: Seq<Seq<char>> = Seq::empty();
    proof {
        lemma_matching_none(query@, true);
        assert(found.deep_view() =~= matching(seen, query@, true));
        assert(seen + lines_of(rest@) =~= lines_of(contents@));
    }
    loop
        invariant
            needle@ == folded(query@),
            lines_of(contents@) == seen + lines_of(rest@),
            found.deep_view() == matching(seen, query@, true),
        ensures
            found.deep_view() == matching_lines(query@, contents@, true),
        decreases rest@.len(),
    {
        match next_line(rest) {
            None => {
                proof {
                    assert(seen + lines_of(rest@) =~= seen);
                }
                break ;
            },
            Some((line, tail)) => {
                proof {
                    lemma_line_taken(contents@, seen, rest@);
                    lemma_matching_push(seen, line@, query@, true);
                    seen = seen.push(line@);
                }
                let hay = fold(line);
                if contains(hay.as_str(), needle.as_str()) {
                    let ghost hits = found.deep_view();
                    found.push(line);
                    proof {
                        assert(found.deep_view() =~= hits.push(line@));
                    }
                }
                rest = tail;
            },
        }
    }
    proof {
        if query@.len() == 0 {
            assert(query@ =~= Seq::<char>::empty());
            lemma_empty_query_finds_every_line(contents@, true);
        }
        if contents@.len() == 0 {
            assert(contents@ =~= Seq::<char>::empty());
            lemma_empty_text_has_no_hits(query@, true);
        }
    }
    found
}

/// The search that `config` asks for, over `contents`, the text of the file
/// that `config` names: in the mode that `config.case_insensitive` selects,
/// the lines of `contents` that are hits for `config.query`, in their order.
///
/// Reading the file and writing out the lines is left to the caller.
pub fn run<'a>(config: &Config, contents: &'a str) -> (found: Vec<&'a str>)
    ensures
        found.deep_view() == matching_lines(config.query@, contents@, config.case_insensitive),
        config.query@.len() == 0 ==> found.deep_view() == lines_of(contents@),
        contents@.len() == 0 ==> found@.len() == 0,
{
    if config.case_insensitive {
        search_case_insensitive(config.query.as_str(), contents)
    } else {
        search(config.query.as_str(), contents)
    }
}

} // verus!
