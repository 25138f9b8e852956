use vstd::prelude::*;

use crate::gemini::responses::opt_text;
use crate::gemini::types::BinaryPredictionMarket;
use crate::metadata::Category;
use crate::traits::Metadata;
use crate::utils::patterns::{group, group_texts, regex_captures, regex_compiles, Pattern};

verus! {

/// Crypto tickers: asset, optional interval, ten-digit id, and `up` or a
/// `hi` strike.
pub open spec fn crypto_pattern() -> Seq<char> {
    "^gemi-([a-z]+)(?:(05m|15m))?(\\d{10})-(up|hi(\\d+(?:d\\d+)?))$"@
}

/// Tickers of sports with one competitor per side.
pub open spec fn individual_sports_pattern() -> Seq<char> {
    "^gemi-[a-z0-9]+-[a-z]{2,5}-[a-z]+-\\d{8}-[a-z]+$"@
}

/// Tickers of team sports.
pub open spec fn team_sports_pattern() -> Seq<char> {
    "^gemi-[a-z]{2,6}-\\d{10}-[a-z]{2,4}-[a-z]{2,4}-[a-z]{1,7}-[a-z0-9]+$"@
}

/// The parts of a crypto ticker.
#[derive(Debug)]
pub struct CryptoTicker {
    pub symbol: Option<String>,
    pub interval: Option<String>,
    pub id: Option<String>,
    pub mode: Option<String>,
    pub hi_detail: Option<String>,
}

/// The crypto ticker that the groups of a match spell.
pub open spec fn crypto_ticker_of(groups: Seq<Option<Seq<char>>>, c: CryptoTicker) -> bool {
    &&& opt_text(c.symbol) == group(groups, 1)
    &&& opt_text(c.interval) == group(groups, 2)
    &&& opt_text(c.id) == group(groups, 3)
    &&& opt_text(c.mode) == group(groups, 4)
    &&& opt_text(c.hi_detail) == group(groups, 5)
}

/// What a market's ticker reads as, by the market's category.
#[derive(Debug)]
pub enum TickerParts {
    /// A crypto market: the parts, where the ticker matches.
    Crypto(Option<CryptoTicker>),
    /// A sports market: the groups of the team and of the individual
    /// pattern, where each matches.
    Sports { team: Option<Vec<Option<String>>>, individual: Option<Vec<Option<String>>> },
    /// Another category: not read.
    Other,
}

/// The groups of a match, as texts.
pub open spec fn captured(r: Option<Vec<Option<String>>>) -> Option<Seq<Option<Seq<char>>>> {
    match r {
        Some(v) => Some(group_texts(v@)),
        None => None,
    }
}

/// Reads the parts of contract tickers.
pub struct TickerParser {
    crypto_regex: Pattern,
    individual_sports_regex: Pattern,
    team_sports_regex: Pattern,
}

/// Group `i` of `groups`, as its own string.
fn group_at(groups: &Vec<Option<String>>, i: usize) -> (r: Option<String>)
    ensures
        opt_text(r) == group(group_texts(groups@), i as int),
{
    if i < groups.len() {
        match &groups[i] {
            Some(s) => Some(s.clone()),
            None => None,
        }
    } else {
        None
    }
}

impl TickerParser {
    /// Each pattern is the one of its kind of ticker.
    #[verifier::type_invariant]
    closed spec fn wf(&self) -> bool {
        &&& self.crypto_regex.source() == crypto_pattern()
        &&& self.individual_sports_regex.source() == individual_sports_pattern()
        &&& self.team_sports_regex.source() == team_sports_pattern()
    }

    /// A parser, or None where one of the three patterns does not compile.
    pub fn new() -> (r: Option<Self>)
        ensures
            r is Some <==> regex_compiles(crypto_pattern()) && regex_compiles(
                individual_sports_pattern(),
            ) && regex_compiles(team_sports_pattern()),
    {
        let crypto_regex = match Pattern::new(
            "^gemi-([a-z]+)(?:(05m|15m))?(\\d{10})-(up|hi(\\d+(?:d\\d+)?))$",
        ) {
            Some(p) => p,
            None => return None,
        };
        let individual_sports_regex = match Pattern::new(
            "^gemi-[a-z0-9]+-[a-z]{2,5}-[a-z]+-\\d{8}-[a-z]+$",
        ) {
            Some(p) => p,
            None => return None,
        };
        let team_sports_regex = match Pattern::new(
            "^gemi-[a-z]{2,6}-\\d{10}-[a-z]{2,4}-[a-z]{2,4}-[a-z]{1,7}-[a-z0-9]+$",
        ) {
            Some(p) => p,
            None => return None,
        };
        Some(Self { crypto_regex, individual_sports_regex, team_sports_regex })
    }

    /// The ticker read by its market's category: crypto and sports tickers
    /// by their patterns, others not at all.
    pub fn parse(&self, market: &BinaryPredictionMarket) -> (r: TickerParts)
        ensures
            market.event.category is Crypto ==> (r matches TickerParts::Crypto(c) && (c is None
                <==> regex_captures(crypto_pattern(), market.spec_id()) is None) && (c matches Some(
                t,
            ) ==> crypto_ticker_of(regex_captures(crypto_pattern(), market.spec_id())->0, t))),
            market.event.category is Sports ==> (r matches TickerParts::Sports { team, individual }
                && captured(team) == regex_captures(team_sports_pattern(), market.spec_id())
                && captured(individual) == regex_captures(
                individual_sports_pattern(),
                market.spec_id(),
            )),
            !(market.event.category is Crypto) && !(market.event.category is Sports) ==> r is Other,
    {
        match market.event.category {
            Category::Crypto => TickerParts::Crypto(self.parse_crypto_ticker(market.id())),
            Category::Sports => {
                let (team, individual) = self.parse_sports_ticker(market.id());
                TickerParts::Sports { team, individual }
            },
            _ => TickerParts::Other,
        }
    }

    /// The groups of a sports ticker under the team and the individual
    /// patterns.
    pub fn parse_sports_ticker(&self, ticker: &str) -> (r: (
        Option<Vec<Option<String>>>,
        Option<Vec<Option<String>>>,
    ))
        ensures
            captured(r.0) == regex_captures(team_sports_pattern(), ticker@),
            captured(r.1) == regex_captures(individual_sports_pattern(), ticker@),
    {
        proof {
            use_type_invariant(self);
        }
        let team = self.team_sports_regex.captures(ticker);
        let individual = self.individual_sports_regex.captures(ticker);
        (team, individual)
    }

    /// The parts of a crypto ticker: asset, interval, id, mode and the
    /// detail of a `hi` strike, where the ticker matches.
    pub fn parse_crypto_ticker(&self, ticker: &str) -> (r: Option<CryptoTicker>)
        ensures
            r is None <==> regex_captures(crypto_pattern(), ticker@) is None,
            r matches Some(c) ==> crypto_ticker_of(regex_captures(crypto_pattern(), ticker@)->0, c),
    {
        proof {
            use_type_invariant(self);
        }
        match self.crypto_regex.captures(ticker) {
            Some(caps) => Some(
                CryptoTicker {
                    symbol: group_at(&caps, 1),
                    interval: group_at(&caps, 2),
                    id: group_at(&caps, 3),
                    mode: group_at(&caps, 4),
                    hi_detail: group_at(&caps, 5),
                },
            ),
            None => None,
        }
    }
}

} // verus!
