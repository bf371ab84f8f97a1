//! Reading the endpoint's answer: the success range of HTTP statuses, the
//! typed parse of the response body, and the choice of the reply.
//!
//! A response body is a JSON object with a `choices` member, an array of
//! objects each holding a `message` object with string members `role` and
//! `content`. Members with other keys are accepted and skipped; a required
//! member that is absent or doubled does not conform.

use crate::error::QueryError;
use crate::json::{
    parse_string_at, parse_string_exec, scan_ws, skip_value, skip_value_exec, ws_end,
};
use crate::strutil::{chars_eq_str, chars_of, string_of_chars};
use crate::types::{ChatResponse, Choice, Message, MessageView};
use vstd::prelude::*;
use vstd::string::StringExecFns;

verus! {

/// View of an optional string, for relating executable state to the grammar.
pub open spec fn opt_chars(o: Option<String>) -> Option<Seq<char>> {
    match o {
        Some(x) => Some(x@),
        None => None,
    }
}

/// Members of a `message` object, entered at a key, with the fields already
/// seen. Yields the message and the index past the closing brace.
pub open spec fn parse_message_members(
    s: Seq<char>,
    i: int,
    role: Option<Seq<char>>,
    content: Option<Seq<char>>,
) -> Option<(MessageView, int)>
    decreases s.len() - i,
{
    match parse_string_at(s, i) {
        Some((key, j)) => {
            if i < j && j <= s.len() {
                let k = ws_end(s, j);
                if j <= k && k < s.len() && s[k] == ':' {
                    let l = ws_end(s, k + 1);
                    if k + 1 <= l && l <= s.len() {
                        let step: Option<(Option<Seq<char>>, Option<Seq<char>>, int)> = if key
                            == "role"@ {
                            if role is Some {
                                None
                            } else {
                                match parse_string_at(s, l) {
                                    Some((val, m)) => Some((Some(val), content, m)),
                                    None => None,
                                }
                            }
                        } else if key == "content"@ {
                            if content is Some {
                                None
                            } else {
                                match parse_string_at(s, l) {
                                    Some((val, m)) => Some((role, Some(val), m)),
                                    None => None,
                                }
                            }
                        } else {
                            match skip_value(s, l) {
                                Some(m) => Some((role, content, m)),
                                None => None,
                            }
                        };
                        match step {
                            Some((role2, content2, m)) => {
                                if l < m && m <= s.len() {
                                    let n = ws_end(s, m);
                                    if m <= n && n < s.len() {
                                        if s[n] == ',' {
                                            let p = ws_end(s, n + 1);
                                            if n + 1 <= p && p <= s.len() {
                                                parse_message_members(s, p, role2, content2)
                                            } else {
                                                None
                                            }
                                        } else if s[n] == '}' {
                                            match (role2, content2) {
                                                (Some(r), Some(c)) => Some(
                                                    (MessageView { role: r, content: c }, n + 1),
                                                ),
                                                _ => None,
                                            }
                                        } else {
                                            None
                                        }
                                    } else {
                                        None
                                    }
                                } else {
                                    None
                                }
                            },
                            None => None,
                        }
                    } else {
                        None
                    }
                } else {
                    None
                }
            } else {
                None
            }
        },
        None => None,
    }
}

/// A `message` object at `i`. Both `role` and `content` must be present.
pub open spec fn parse_message_obj(s: Seq<char>, i: int) -> Option<(MessageView, int)> {
    if 0 <= i && i < s.len() && s[i] == '{' {
        let j = ws_end(s, i + 1);
        if i + 1 <= j && j <= s.len() {
            if j < s.len() && s[j] == '}' {
                None
            } else {
                parse_message_members(s, j, None, None)
            }
        } else {
            None
        }
    } else {
        None
    }
}

/// View of an optional message.
pub open spec fn opt_msg(o: Option<Message>) -> Option<MessageView> {
    match o {
        Some(m) => Some(m@),
        None => None,
    }
}

/// Members of a `choice` object, entered at a key, with the message already
/// seen if any.
pub open spec fn parse_choice_members(s: Seq<char>, i: int, msg: Option<MessageView>) -> Option<
    (MessageView, int),
>
    decreases s.len() - i,
{
    match parse_string_at(s, i) {
        Some((key, j)) => {
            if i < j && j <= s.len() {
                let k = ws_end(s, j);
                if j <= k && k < s.len() && s[k] == ':' {
                    let l = ws_end(s, k + 1);
                    if k + 1 <= l && l <= s.len() {
                        let step: Option<(Option<MessageView>, int)> = if key == "message"@ {
                            if msg is Some {
                                None
                            } else {
                                match parse_message_obj(s, l) {
                                    Some((m, m2)) => Some((Some(m), m2)),
                                    None => None,
                                }
                            }
                        } else {
                            match skip_value(s, l) {
                                Some(m2) => Some((msg, m2)),
                                None => None,
                            }
                        };
                        match step {
                            Some((msg2, m)) => {
                                if l < m && m <= s.len() {
                                    let n = ws_end(s, m);
                                    if m <= n && n < s.len() {
                                        if s[n] == ',' {
                                            let p = ws_end(s, n + 1);
                                            if n + 1 <= p && p <= s.len() {
                                                parse_choice_members(s, p, msg2)
                                            } else {
                                                None
                                            }
                                        } else if s[n] == '}' {
                                            match msg2 {
                                                Some(m3) => Some((m3, n + 1)),
                                                None => None,
                                            }
                                        } else {
                                            None
                                        }
                                    } else {
                                        None
                                    }
                                } else {
                                    None
                                }
                            },
                            None => None,
                        }
                    } else {
                        None
                    }
                } else {
                    None
                }
            } else {
                None
            }
        },
        None => None,
    }
}

/// A `choice` object at `i`. Its `message` member must be present.
pub open spec fn parse_choice_obj(s: Seq<char>, i: int) -> Option<(MessageView, int)> {
    if 0 <= i && i < s.len() && s[i] == '{' {
        let j = ws_end(s, i + 1);
        if i + 1 <= j && j <= s.len() {
            if j < s.len() && s[j] == '}' {
                None
            } else {
                parse_choice_members(s, j, None)
            }
        } else {
            None
        }
    } else {
        None
    }
}

/// One or more elements of the `choices` array, entered at a value.
pub open spec fn parse_choices_elements(s: Seq<char>, i: int) -> Option<(Seq<MessageView>, int)>
    decreases s.len() - i,
{
    match parse_choice_obj(s, i) {
        Some((m, j)) => {
            if i < j && j <= s.len() {
                let k = ws_end(s, j);
                if j <= k && k < s.len() {
                    if s[k] == ',' {
                        let l = ws_end(s, k + 1);
                        if k + 1 <= l && l <= s.len() {
                            match parse_choices_elements(s, l) {
                                Some((rest, e)) => Some((seq![m] + rest, e)),
                                None => None,
                            }
                        } else {
                            None
                        }
                    } else if s[k] == ']' {
                        Some((seq![m], k + 1))
                    } else {
                        None
                    }
                } else {
                    None
                }
            } else {
                None
            }
        },
        None => None,
    }
}

/// The `choices` array at `i`, possibly empty.
pub open spec fn parse_choices_array(s: Seq<char>, i: int) -> Option<(Seq<MessageView>, int)> {
    if 0 <= i && i < s.len() && s[i] == '[' {
        let j = ws_end(s, i + 1);
        if i + 1 <= j && j <= s.len() {
            if j < s.len() && s[j] == ']' {
                Some((Seq::empty(), j + 1))
            } else {
                parse_choices_elements(s, j)
            }
        } else {
            None
        }
    } else {
        None
    }
}

/// Members of the response object, entered at a key, with the choices
/// already seen if any.
pub open spec fn parse_response_members(
    s: Seq<char>,
    i: int,
    choices: Option<Seq<MessageView>>,
) -> Option<(Seq<MessageView>, int)>
    decreases s.len() - i,
{
    match parse_string_at(s, i) {
        Some((key, j)) => {
            if i < j && j <= s.len() {
                let k = ws_end(s, j);
                if j <= k && k < s.len() && s[k] == ':' {
                    let l = ws_end(s, k + 1);
                    if k + 1 <= l && l <= s.len() {
                        let step: Option<(Option<Seq<MessageView>>, int)> = if key == "choices"@ {
                            if choices is Some {
                                None
                            } else {
                                match parse_choices_array(s, l) {
                                    Some((cs, m)) => Some((Some(cs), m)),
                                    None => None,
                                }
                            }
                        } else {
                            match skip_value(s, l) {
                                Some(m) => Some((choices, m)),
                                None => None,
                            }
                        };
                        match step {
                            Some((choices2, m)) => {
                                if l < m && m <= s.len() {
                                    let n = ws_end(s, m);
                                    if m <= n && n < s.len() {
                                        if s[n] == ',' {
                                            let p = ws_end(s, n + 1);
                                            if n + 1 <= p && p <= s.len() {
                                                parse_response_members(s, p, choices2)
                                            } else {
                                                None
                                            }
                                        } else if s[n] == '}' {
                                            match choices2 {
                                                Some(cs) => Some((cs, n + 1)),
                                                None => None,
                                            }
                                        } else {
                                            None
                                        }
                                    } else {
                                        None
                                    }
                                } else {
                                    None
                                }
                            },
                            None => None,
                        }
                    } else {
                        None
                    }
                } else {
                    None
                }
            } else {
                None
            }
        },
        None => None,
    }
}

/// The response object at `i`. Its `choices` member must be present.
pub open spec fn parse_response_obj(s: Seq<char>, i: int) -> Option<(Seq<MessageView>, int)> {
    if 0 <= i && i < s.len() && s[i] == '{' {
        let j = ws_end(s, i + 1);
        if i + 1 <= j && j <= s.len() {
            if j < s.len() && s[j] == '}' {
                None
            } else {
                parse_response_members(s, j, None)
            }
        } else {
            None
        }
    } else {
        None
    }
}

/// The whole response text: whitespace, the response object, whitespace,
/// end of text. The messages of the choices, in order, or nothing where the
/// text does not conform.
pub open spec fn spec_parse_response(s: Seq<char>) -> Option<Seq<MessageView>> {
    let i = ws_end(s, 0);
    if 0 <= i && i <= s.len() {
        match parse_response_obj(s, i) {
            Some((cs, j)) => {
                if 0 <= j && j <= s.len() && ws_end(s, j) == s.len() {
                    Some(cs)
                } else {
                    None
                }
            },
            None => None,
        }
    } else {
        None
    }
}

fn parse_message_members_exec(
    s: &Vec<char>,
    i: usize,
    role: Option<String>,
    content: Option<String>,
) -> (r: Option<(Message, usize)>)
    requires
        i <= s@.len(),
    ensures
        match r {
            Some((msg, j)) => parse_message_members(s@, i as int, opt_chars(role), opt_chars(content))
                == Some((msg@, j as int)) && i < j <= s@.len(),
            None => parse_message_members(s@, i as int, opt_chars(role), opt_chars(content)) is None,
        },
    decreases s@.len() - i,
{
    match parse_string_exec(s, i) {
        Some((key, j)) => {
            let k = scan_ws(s, j);
            if k < s.len() && s[k] == ':' {
                let l = scan_ws(s, k + 1);
                let step: Option<(Option<String>, Option<String>, usize)> = if chars_eq_str(
                    &key,
                    "role",
                ) {
                    if role.is_some() {
                        None
                    } else {
                        match parse_string_exec(s, l) {
                            Some((val, m)) => Some((Some(string_of_chars(&val)), content, m)),
                            None => None,
                        }
                    }
                } else if chars_eq_str(&key, "content") {
                    if content.is_some() {
                        None
                    } else {
                        match parse_string_exec(s, l) {
                            Some((val, m)) => Some((role, Some(string_of_chars(&val)), m)),
                            None => None,
                        }
                    }
                } else {
                    match skip_value_exec(s, l) {
                        Some(m) => Some((role, content, m)),
                        None => None,
                    }
                };
                match step {
                    Some((role2, content2, m)) => {
                        let n = scan_ws(s, m);
                        if n < s.len() {
                            if s[n] == ',' {
                                let p = scan_ws(s, n + 1);
                                parse_message_members_exec(s, p, role2, content2)
                            } else if s[n] == '}' {
                                match (role2, content2) {
                                    (Some(r2), Some(c2)) => Some(
                                        (Message { role: r2, content: c2 }, n + 1),
                                    ),
                                    _ => None,
                                }
                            } else {
                                None
                            }
                        } else {
                            None
                        }
                    },
                    None => None,
                }
            } else {
                None
            }
        },
        None => None,
    }
}

fn parse_message_obj_exec(s: &Vec<char>, i: usize) -> (r: Option<(Message, usize)>)
    requires
        i <= s@.len(),
    ensures
        match r {
            Some((msg, j)) => parse_message_obj(s@, i as int) == Some((msg@, j as int)) && i < j
                <= s@.len(),
            None => parse_message_obj(s@, i as int) is None,
        },
{
    if i < s.len() && s[i] == '{' {
        let j = scan_ws(s, i + 1);
        if j < s.len() && s[j] == '}' {
            None
        } else {
            parse_message_members_exec(s, j, None, None)
        }
    } else {
        None
    }
}

fn parse_choice_members_exec(s: &Vec<char>, i: usize, msg: Option<Message>) -> (r: Option<
    (Message, usize),
>)
    requires
        i <= s@.len(),
    ensures
        match r {
            Some((m, j)) => parse_choice_members(s@, i as int, opt_msg(msg)) == Some(
                (m@, j as int),
            ) && i < j <= s@.len(),
            None => parse_choice_members(s@, i as int, opt_msg(msg)) is None,
        },
    decreases s@.len() - i,
{
    match parse_string_exec(s, i) {
        Some((key, j)) => {
            let k = scan_ws(s, j);
            if k < s.len() && s[k] == ':' {
                let l = scan_ws(s, k + 1);
                let step: Option<(Option<Message>, usize)> = if chars_eq_str(&key, "message") {
                    if msg.is_some() {
                        None
                    } else {
                        match parse_message_obj_exec(s, l) {
                            Some((m, m2)) => Some((Some(m), m2)),
                            None => None,
                        }
                    }
                } else {
                    match skip_value_exec(s, l) {
                        Some(m2) => Some((msg, m2)),
                        None => None,
                    }
                };
                match step {
                    Some((msg2, m)) => {
                        let n = scan_ws(s, m);
                        if n < s.len() {
                            if s[n] == ',' {
                                let p = scan_ws(s, n + 1);
                                parse_choice_members_exec(s, p, msg2)
                            } else if s[n] == '}' {
                                match msg2 {
                                    Some(m3) => Some((m3, n + 1)),
                                    None => None,
                                }
                            } else {
                                None
                            }
                        } else {
                            None
                        }
                    },
                    None => None,
                }
            } else {
                None
            }
        },
        None => None,
    }
}

fn parse_choice_obj_exec(s: &Vec<char>, i: usize) -> (r: Option<(Message, usize)>)
    requires
        i <= s@.len(),
    ensures
        match r {
            Some((m, j)) => parse_choice_obj(s@, i as int) == Some((m@, j as int)) && i < j
                <= s@.len(),
            None => parse_choice_obj(s@, i as int) is None,
        },
{
    if i < s.len() && s[i] == '{' {
        let j = scan_ws(s, i + 1);
        if j < s.len() && s[j] == '}' {
            None
        } else {
            parse_choice_members_exec(s, j, None)
        }
    } else {
        None
    }
}

/// The messages of a vector of choices, in order.
pub open spec fn choices_views(v: Seq<Choice>) -> Seq<MessageView> {
    v.map_values(|c: Choice| c@)
}

fn parse_choices_elements_exec(s: &Vec<char>, i: usize) -> (r: Option<(Vec<Choice>, usize)>)
    requires
        i <= s@.len(),
    ensures
        match r {
            Some((cs, j)) => parse_choices_elements(s@, i as int) == Some(
                (choices_views(cs@), j as int),
            ) && i < j <= s@.len(),
            None => parse_choices_elements(s@, i as int) is None,
        },
    decreases s@.len() - i,
{
    match parse_choice_obj_exec(s, i) {
        Some((m, j)) => {
            let k = scan_ws(s, j);
            if k < s.len() {
                if s[k] == ',' {
                    let l = scan_ws(s, k + 1);
                    match parse_choices_elements_exec(s, l) {
                        Some((mut rest, e)) => {
                            rest.insert(0, Choice { message: m });
                            proof {
                                assert(choices_views(rest@) =~= seq![rest@[0]@] + choices_views(
                                    rest@.drop_first(),
                                ));
                            }
                            Some((rest, e))
                        },
                        None => None,
                    }
                } else if s[k] == ']' {
                    let mut cs: Vec<Choice> = Vec::new();
                    cs.push(Choice { message: m });
                    proof {
                        assert(choices_views(cs@) =~= seq![cs@[0]@]);
                    }
                    Some((cs, k + 1))
                } else {
                    None
                }
            } else {
                None
            }
        },
        None => None,
    }
}

fn parse_choices_array_exec(s: &Vec<char>, i: usize) -> (r: Option<(Vec<Choice>, usize)>)
    requires
        i <= s@.len(),
    ensures
        match r {
            Some((cs, j)) => parse_choices_array(s@, i as int) == Some(
                (choices_views(cs@), j as int),
            ) && i < j <= s@.len(),
            None => parse_choices_array(s@, i as int) is None,
        },
{
    if i < s.len() && s[i] == '[' {
        let j = scan_ws(s, i + 1);
        if j < s.len() && s[j] == ']' {
            let cs: Vec<Choice> = Vec::new();
            proof {
                assert(choices_views(cs@) =~= Seq::<MessageView>::empty());
            }
            Some((cs, j + 1))
        } else {
            parse_choices_elements_exec(s, j)
        }
    } else {
        None
    }
}

fn parse_response_members_exec(s: &Vec<char>, i: usize, choices: Option<Vec<Choice>>) -> (r: Option<
    (Vec<Choice>, usize),
>)
    requires
        i <= s@.len(),
    ensures
        match r {
            Some((cs, j)) => parse_response_members(s@, i as int, opt_choices(choices)) == Some(
                (choices_views(cs@), j as int),
            ) && i < j <= s@.len(),
            None => parse_response_members(s@, i as int, opt_choices(choices)) is None,
        },
    decreases s@.len() - i,
{
    match parse_string_exec(s, i) {
        Some((key, j)) => {
            let k = scan_ws(s, j);
            if k < s.len() && s[k] == ':' {
                let l = scan_ws(s, k + 1);
                let step: Option<(Option<Vec<Choice>>, usize)> = if chars_eq_str(&key, "choices") {
                    if choices.is_some() {
                        None
                    } else {
                        match parse_choices_array_exec(s, l) {
                            Some((cs, m)) => Some((Some(cs), m)),
                            None => None,
                        }
                    }
                } else {
                    match skip_value_exec(s, l) {
                        Some(m) => Some((choices, m)),
                        None => None,
                    }
                };
                match step {
                    Some((choices2, m)) => {
                        let n = scan_ws(s, m);
                        if n < s.len() {
                            if s[n] == ',' {
                                let p = scan_ws(s, n + 1);
                                parse_response_members_exec(s, p, choices2)
                            } else if s[n] == '}' {
                                match choices2 {
                                    Some(cs) => Some((cs, n + 1)),
                                    None => None,
                                }
                            } else {
                                None
                            }
                        } else {
                            None
                        }
                    },
                    None => None,
                }
            } else {
                None
            }
        },
        None => None,
    }
}

/// View of optional parsed choices.
pub open spec fn opt_choices(o: Option<Vec<Choice>>) -> Option<Seq<MessageView>> {
    match o {
        Some(cs) => Some(choices_views(cs@)),
        None => None,
    }
}

fn parse_response_obj_exec(s: &Vec<char>, i: usize) -> (r: Option<(Vec<Choice>, usize)>)
    requires
        i <= s@.len(),
    ensures
        match r {
            Some((cs, j)) => parse_response_obj(s@, i as int) == Some(
                (choices_views(cs@), j as int),
            ) && i < j <= s@.len(),
            None => parse_response_obj(s@, i as int) is None,
        },
{
    if i < s.len() && s[i] == '{' {
        let j = scan_ws(s, i + 1);
        if j < s.len() && s[j] == '}' {
            None
        } else {
            parse_response_members_exec(s, j, None)
        }
    } else {
        None
    }
}

/// Parse a response body. Returns the response exactly where the text
/// conforms to the grammar, and nothing otherwise.
pub fn parse_response(body: &str) -> (r: Option<ChatResponse>)
    ensures
        match r {
            Some(resp) => spec_parse_response(body@) == Some(resp@),
            None => spec_parse_response(body@) is None,
        },
{
    let s = chars_of(body);
    let i = scan_ws(&s, 0);
    match parse_response_obj_exec(&s, i) {
        Some((cs, j)) => {
            let k = scan_ws(&s, j);
            if k == s.len() {
                Some(ChatResponse { choices: cs })
            } else {
                None
            }
        },
        None => None,
    }
}

/// Whether an HTTP status lies in the success range.
pub open spec fn spec_is_success(status: int) -> bool {
    200 <= status < 300
}

/// Whether an HTTP status lies in the success range (2xx).
pub fn is_success_status(status: u16) -> (r: bool)
    ensures
        r == spec_is_success(status as int),
{
    200 <= status && status < 300
}

/// Interpret the HTTP exchange's outcome: a status outside the success
/// range fails with that status and the body; a success status yields the
/// parsed response, or a parse failure where the body does not conform.
/// An empty choice list is still a successful parse here: rejecting it is
/// the caller's step, as [`first_choice_content`] does.
pub fn interpret_response(status: u16, body: &str) -> (r: Result<ChatResponse, QueryError>)
    ensures
        !spec_is_success(status as int) ==> (r matches Err(e) && e@
            == (crate::error::QueryErrorView::ApiStatus { status: status as int, body: body@ })),
        spec_is_success(status as int) ==> (match r {
            Ok(resp) => spec_parse_response(body@) == Some(resp@),
            Err(e) => spec_parse_response(body@) is None && e@
                == crate::error::QueryErrorView::ParseError,
        }),
{
    if !is_success_status(status) {
        let b: String = body.to_owned();
        return Err(QueryError::ApiStatus { status, body: b });
    }
    match parse_response(body) {
        Some(resp) => Ok(resp),
        None => Err(QueryError::ParseError),
    }
}

/// The reply: the content of the first choice's message, or the distinct
/// no-choices failure where the list is empty.
pub fn first_choice_content(resp: &ChatResponse) -> (r: Result<String, QueryError>)
    ensures
        resp@.len() == 0 ==> (r matches Err(e) && e@ == crate::error::QueryErrorView::NoChoices),
        resp@.len() > 0 ==> (r matches Ok(c) && c@ == resp@[0].content),
{
    if resp.choices.len() == 0 {
        Err(QueryError::NoChoices)
    } else {
        let c: String = resp.choices[0].message.content.clone();
        Ok(c)
    }
}

} // verus!
