use vstd::prelude::*;

verus! {

/// The answer of a knowledge-base search.
#[derive(Debug)]
pub struct SearchResult {
    pub results: Vec<Item>,
}

/// One item found.
#[derive(Debug)]
pub struct Item {
    pub id: String,
    pub display_label: DisplayLabel,
    pub description: Description,
    pub match_info: Match,
}

#[derive(Debug)]
pub struct DisplayLabel {
    pub language: String,
    pub value: String,
}

#[derive(Debug)]
pub struct Description {
    pub language: String,
    pub value: String,
}

/// How an item matched the query.
#[derive(Debug)]
pub struct Match {
    pub match_type: String,
    pub language: String,
    pub text: String,
}

/// The best item of a search.
pub struct TopResult {
    pub id: String,
    pub match_type: String,
    pub match_value: String,
}

} // verus!
