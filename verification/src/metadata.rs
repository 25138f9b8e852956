use vstd::prelude::*;

use crate::utils::parsing::{is_lowercase_ascii, lowercase, lowercase_of};

verus! {

/// What kind of quantity a series measures.
pub enum ObservationType {
    Measurement,
    Outcome,
    Derivative,
    Forecast,
    Signal,
}

/// When a market runs. Instants are milliseconds since the Unix epoch.
#[derive(Debug, Clone, Copy, PartialEq, Eq, Structural)]
pub enum TimeFrame {
    Continuous,
    Discrete { start: i64, end: i64 },
    OpenEnded { start: i64, est_end: Option<i64> },
    ExpiresAt { end: i64 },
    Sampled { interval_ms: u64 },
    Unknown,
}

/// The kind of market.
#[derive(Debug)]
pub enum Category {
    Sports,
    Crypto,
    Commodities,
    Weather,
    Other(String),
}

/// Metadata of a crypto market.
pub struct CryptoMetadata {
    pub asset: String,
}

/// The category that the lowercase text `lower` names.
pub open spec fn names_category(lower: Seq<char>, c: Category) -> bool {
    match c {
        Category::Sports => lower == "sports"@ || lower == "sport"@,
        Category::Crypto => lower == "crypto"@,
        Category::Commodities => lower == "commodities"@ || lower == "commodity"@,
        Category::Weather => lower == "weather"@,
        Category::Other(s) => s@ == lower && lower != "sports"@ && lower != "sport"@ && lower
            != "crypto"@ && lower != "commodities"@ && lower != "commodity"@ && lower
            != "weather"@,
    }
}

/// The name of a category.
pub open spec fn category_name(c: Category) -> Seq<char> {
    match c {
        Category::Sports => "sports"@,
        Category::Crypto => "crypto"@,
        Category::Commodities => "commodity"@,
        Category::Weather => "weather"@,
        Category::Other(inner) => inner@,
    }
}

/// A text names one category at most.
pub proof fn lemma_names_one_category(lower: Seq<char>, a: Category, b: Category)
    requires
        names_category(lower, a),
        names_category(lower, b),
    ensures
        same_category(a, b),
{
    reveal_strlit("sports");
    reveal_strlit("sport");
    reveal_strlit("crypto");
    reveal_strlit("commodities");
    reveal_strlit("commodity");
    reveal_strlit("weather");
    assert("sports"@.len() == 6 && "sport"@.len() == 5 && "crypto"@.len() == 6);
    assert("commodities"@.len() == 11 && "commodity"@.len() == 9 && "weather"@.len() == 7);
    assert("sports"@[0] != "crypto"@[0]);
}

/// Reading a category's own name gives the category back: the name is
/// lowercase ASCII, which lowercasing leaves as it is, and it names the
/// category. For `Other` this holds when its text is lowercase ASCII and
/// not the name of another category.
pub proof fn lemma_category_name_round_trip(c: Category)
    requires
        c matches Category::Other(s) ==> is_lowercase_ascii(s@) && names_category(s@, c),
    ensures
        is_lowercase_ascii(category_name(c)),
        names_category(category_name(c), c),
{
    reveal_strlit("sports");
    reveal_strlit("crypto");
    reveal_strlit("commodity");
    reveal_strlit("weather");
}

/// Two categories are the same: the same variant, and for `Other` the same
/// text.
pub open spec fn same_category(a: Category, b: Category) -> bool {
    match (a, b) {
        (Category::Sports, Category::Sports) => true,
        (Category::Crypto, Category::Crypto) => true,
        (Category::Commodities, Category::Commodities) => true,
        (Category::Weather, Category::Weather) => true,
        (Category::Other(x), Category::Other(y)) => x@ == y@,
        _ => false,
    }
}

impl Category {
    /// Whether two categories are the same.
    pub fn same(&self, other: &Category) -> (r: bool)
        ensures
            r == same_category(*self, *other),
    {
        match (self, other) {
            (Category::Sports, Category::Sports) => true,
            (Category::Crypto, Category::Crypto) => true,
            (Category::Commodities, Category::Commodities) => true,
            (Category::Weather, Category::Weather) => true,
            (Category::Other(x), Category::Other(y)) => *x == *y,
            _ => false,
        }
    }

    /// A copy of this category.
    pub fn duplicate(&self) -> (r: Category)
        ensures
            r == *self,
    {
        match self {
            Category::Sports => Category::Sports,
            Category::Crypto => Category::Crypto,
            Category::Commodities => Category::Commodities,
            Category::Weather => Category::Weather,
            Category::Other(s) => Category::Other(s.clone()),
        }
    }

    /// The category's name.
    pub fn as_ref(&self) -> (r: &str)
        ensures
            r@ == category_name(*self),
    {
        match self {
            Self::Sports => "sports",
            Self::Crypto => "crypto",
            Self::Commodities => "commodity",
            Self::Weather => "weather",
            Self::Other(inner) => inner.as_str(),
        }
    }

    /// The category named by `raw`, read without regard to case; an
    /// unknown name is kept, lowercased, as `Other`.
    pub fn from_raw(raw: &str) -> (r: Category)
        ensures
            names_category(lowercase_of(raw@), r),
            is_lowercase_ascii(raw@) ==> names_category(raw@, r),
    {
        let normalized = lowercase(raw);
        if normalized == String::from_str("sports") || normalized == String::from_str("sport") {
            Self::Sports
        } else if normalized == String::from_str("crypto") {
            Self::Crypto
        } else if normalized == String::from_str("commodities") || normalized == String::from_str(
            "commodity",
        ) {
            Self::Commodities
        } else if normalized == String::from_str("weather") {
            Self::Weather
        } else {
            Self::Other(normalized)
        }
    }
}

} // verus!
