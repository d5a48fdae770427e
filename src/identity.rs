use vstd::prelude::*;

verus! {

/// A core named by its numeric id or by its slug.
#[derive(Debug)]
pub enum IdOrSlug {
    Id(i32),
    Slug(String),
}

/// The value of a run of ASCII digits, read in base ten.
pub open spec fn digits_value(s: Seq<char>) -> int
    decreases s.len(),
{
    if s.len() == 0 {
        0
    } else {
        digits_value(s.drop_last()) * 10 + (s.last() as int - '0' as int)
    }
}

/// Every character of `s` is an ASCII digit.
pub open spec fn all_digits(s: Seq<char>) -> bool {
    forall|i: int| 0 <= i < s.len() ==> '0' <= #[trigger] s[i] <= '9'
}

/// `s` read as a decimal `i32`: an optional `+` or `-`, then one or more
/// ASCII digits, with a value in range.
pub open spec fn decimal_i32(s: Seq<char>) -> Option<i32> {
    let signed = s.len() > 0 && (s[0] == '-' || s[0] == '+');
    let body = if signed { s.skip(1) } else { s };
    let magnitude = digits_value(body);
    let v = if signed && s[0] == '-' { -magnitude } else { magnitude };
    if body.len() > 0 && all_digits(body) && i32::MIN <= v <= i32::MAX {
        Some(v as i32)
    } else {
        None
    }
}

/// Relies on `retronomicon_dto::types::IdOrSlug::parse`: text that
/// `str::parse::<i32>` accepts names that id; any other text is a slug, kept
/// as it is.
#[verifier::external_body]
fn parse_with_dto(value: &str) -> (r: IdOrSlug)
    ensures
        match r {
            IdOrSlug::Id(n) => decimal_i32(value@) == Some(n),
            IdOrSlug::Slug(s) => decimal_i32(value@) is None && s@ == value@,
        },
{
    match retronomicon_dto::types::IdOrSlug::parse(value) {
        retronomicon_dto::types::IdOrSlug::Id(id) => IdOrSlug::Id(id),
        retronomicon_dto::types::IdOrSlug::Slug(slug) => IdOrSlug::Slug(slug.into_owned()),
    }
}

impl IdOrSlug {
    /// Reads a path segment: a decimal `i32` names an id, anything else a
    /// slug.
    pub fn parse(value: &str) -> (r: IdOrSlug)
        ensures
            match r {
                IdOrSlug::Id(n) => decimal_i32(value@) == Some(n),
                IdOrSlug::Slug(s) => decimal_i32(value@) is None && s@ == value@,
            },
    {
        parse_with_dto(value)
    }

    /// The id, where this names one.
    pub fn as_id(&self) -> (r: Option<i32>)
        ensures
            r == (match self {
                IdOrSlug::Id(n) => Some(*n),
                IdOrSlug::Slug(_) => None::<i32>,
            }),
    {
        match self {
            IdOrSlug::Id(n) => Some(*n),
            IdOrSlug::Slug(_) => None,
        }
    }

    /// The slug, where this names one.
    pub fn as_slug(&self) -> (r: Option<&str>)
        ensures
            match self {
                IdOrSlug::Id(_) => r is None,
                IdOrSlug::Slug(s) => r is Some && r.unwrap()@ == s@,
            },
    {
        match self {
            IdOrSlug::Id(_) => None,
            IdOrSlug::Slug(s) => Some(s.as_str()),
        }
    }
}

} // verus!
