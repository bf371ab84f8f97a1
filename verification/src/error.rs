//! The ways the exchange can fail, and the diagnostic line each one prints.
//! Every kind is terminal: the caller reports the message and exits.

use crate::strutil::string_of_chars;
use vstd::prelude::*;
use vstd::string::StringExecFns;

verus! {

/// Mathematical image of a [`QueryError`].
pub ghost enum QueryErrorView {
    MissingEnvVar { name: Seq<char> },
    EmptyInput,
    Transport { detail: Seq<char> },
    ApiStatus { status: int, body: Seq<char> },
    ParseError,
    NoChoices,
}

/// Why the exchange failed.
#[derive(Debug)]
pub enum QueryError {
    /// The named environment variable is not set.
    MissingEnvVar { name: String },
    /// Standard input held nothing, or nothing but whitespace.
    EmptyInput,
    /// The HTTP transport failed before any status was received.
    Transport { detail: String },
    /// The endpoint answered with a status outside the success range.
    ApiStatus { status: u16, body: String },
    /// The response body is not a well-formed chat response.
    ParseError,
    /// The response held an empty list of choices.
    NoChoices,
}

impl View for QueryError {
    type V = QueryErrorView;

    open spec fn view(&self) -> QueryErrorView {
        match self {
            QueryError::MissingEnvVar { name } => QueryErrorView::MissingEnvVar { name: name@ },
            QueryError::EmptyInput => QueryErrorView::EmptyInput,
            QueryError::Transport { detail } => QueryErrorView::Transport { detail: detail@ },
            QueryError::ApiStatus { status, body } => QueryErrorView::ApiStatus {
                status: *status as int,
                body: body@,
            },
            QueryError::ParseError => QueryErrorView::ParseError,
            QueryError::NoChoices => QueryErrorView::NoChoices,
        }
    }
}

/// The character of one decimal digit.
pub open spec fn digit_char(d: int) -> char {
    if d == 0 {
        '0'
    } else if d == 1 {
        '1'
    } else if d == 2 {
        '2'
    } else if d == 3 {
        '3'
    } else if d == 4 {
        '4'
    } else if d == 5 {
        '5'
    } else if d == 6 {
        '6'
    } else if d == 7 {
        '7'
    } else if d == 8 {
        '8'
    } else {
        '9'
    }
}

/// Decimal digits of a nonnegative number, most significant first.
pub open spec fn spec_digits(n: int) -> Seq<char>
    decreases n,
{
    if n < 10 {
        seq![digit_char(n)]
    } else {
        spec_digits(n / 10).push(digit_char(n % 10))
    }
}

fn digit_char_exec(d: u16) -> (r: char)
    requires
        d < 10,
    ensures
        r == digit_char(d as int),
{
    if d == 0 {
        '0'
    } else if d == 1 {
        '1'
    } else if d == 2 {
        '2'
    } else if d == 3 {
        '3'
    } else if d == 4 {
        '4'
    } else if d == 5 {
        '5'
    } else if d == 6 {
        '6'
    } else if d == 7 {
        '7'
    } else if d == 8 {
        '8'
    } else {
        '9'
    }
}

/// The decimal digits of a number, as characters.
pub fn decimal_digits(n: u16) -> (r: Vec<char>)
    ensures
        r@ == spec_digits(n as int),
    decreases n,
{
    if n < 10 {
        let mut v: Vec<char> = Vec::new();
        v.push(digit_char_exec(n));
        proof {
            assert(v@ =~= seq![digit_char(n as int)]);
        }
        v
    } else {
        let mut v = decimal_digits(n / 10);
        v.push(digit_char_exec(n % 10));
        v
    }
}

/// The diagnostic line for each kind of failure. An API-status message names
/// the decimal status code and carries the response body; a missing
/// environment variable is named, never its value.
pub open spec fn spec_message(v: QueryErrorView) -> Seq<char> {
    match v {
        QueryErrorView::MissingEnvVar { name } => "Error: "@ + name
            + " environment variable not set"@,
        QueryErrorView::EmptyInput => "Error: No input provided on stdin"@,
        QueryErrorView::Transport { detail } => "Error: request failed: "@ + detail,
        QueryErrorView::ApiStatus { status, body } => "Error: API returned status "@ + spec_digits(
            status,
        ) + ": "@ + body,
        QueryErrorView::ParseError => "Error: Could not parse response body as JSON"@,
        QueryErrorView::NoChoices => "Error: No choices in response"@,
    }
}

impl QueryError {
    /// The human-readable diagnostic for this failure.
    pub fn message(&self) -> (r: String)
        ensures
            r@ == spec_message(self@),
    {
        match self {
            QueryError::MissingEnvVar { name } => {
                let s = String::from_str("Error: ");
                let s = s.concat(name.as_str());
                let s = s.concat(" environment variable not set");
                proof {
                    assert(s@ =~= spec_message(self@));
                }
                s
            },
            QueryError::EmptyInput => String::from_str("Error: No input provided on stdin"),
            QueryError::Transport { detail } => {
                let s = String::from_str("Error: request failed: ");
                let s = s.concat(detail.as_str());
                proof {
                    assert(s@ =~= spec_message(self@));
                }
                s
            },
            QueryError::ApiStatus { status, body } => {
                let d = decimal_digits(*status);
                let ds = string_of_chars(&d);
                let s = String::from_str("Error: API returned status ");
                let s = s.concat(ds.as_str());
                let s = s.concat(": ");
                let s = s.concat(body.as_str());
                proof {
                    assert(s@ =~= spec_message(self@));
                }
                s
            },
            QueryError::ParseError => String::from_str(
                "Error: Could not parse response body as JSON",
            ),
            QueryError::NoChoices => String::from_str("Error: No choices in response"),
        }
    }
}

/// The message of a missing-environment-variable failure cites the
/// variable's name, never its value: the name stands right after the fixed
/// prefix.
pub proof fn lemma_missing_env_var_names_variable(name: Seq<char>)
    ensures
        ({
            let m = spec_message(QueryErrorView::MissingEnvVar { name });
            m.subrange(7, 7 + name.len() as int) == name
        }),
{
    reveal_strlit("Error: ");
    let m = spec_message(QueryErrorView::MissingEnvVar { name });
    assert(m.subrange(7, 7 + name.len() as int) =~= name);
}

/// The message of an API-status failure spells out the decimal status code:
/// it stands right after the fixed prefix, so any status is reported by its
/// own digits.
pub proof fn lemma_status_error_names_code(status: int, body: Seq<char>)
    requires
        0 <= status,
    ensures
        ({
            let m = spec_message(QueryErrorView::ApiStatus { status, body });
            let d = spec_digits(status);
            m.subrange(27, 27 + d.len() as int) == d
        }),
{
    reveal_strlit("Error: API returned status ");
    let m = spec_message(QueryErrorView::ApiStatus { status, body });
    let d = spec_digits(status);
    assert(m.subrange(27, 27 + d.len() as int) =~= d);
}

} // verus!
