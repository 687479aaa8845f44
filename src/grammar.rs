//! The `multistatus` grammar, stated over token values.
//!
//! Each recognizer takes the tokens that are left and returns what it read
//! together with the tokens that follow it, or `None` where the input does
//! not match. Extension blocks may stand wherever the grammar lists child
//! elements; they are read and dropped.
use vstd::prelude::*;
use crate::token::TokenModel;

verus! {

/// One `response` element as the grammar reads it.
pub struct ResponseModel {
    pub href: Seq<char>,
    pub is_collection: bool,
    pub status: Seq<char>,
}

/// A directory listing as sequences of hrefs.
pub struct ListingModel {
    pub directories: Seq<Seq<char>>,
    pub files: Seq<Seq<char>>,
}

/// Why a token stream gives no listing.
pub enum FailureModel {
    /// The tokens do not match the grammar.
    Parse,
    /// A response reported a status other than `200`.
    BadStatus { href: Seq<char>, status: Seq<char> },
}

pub open spec fn is_open(t: TokenModel, name: &str) -> bool {
    t == TokenModel::OpenStd(name@)
}

pub open spec fn is_close(t: TokenModel, name: &str) -> bool {
    t == TokenModel::CloseStd(name@)
}

/// Skips a run of well-nested extension elements and the text inside them.
///
/// `stack` holds the extension elements that are open. The run ends before
/// the first standard tag met with no extension open. Text outside every
/// extension element, a standard tag inside one, or an end tag that does not
/// match the innermost open element makes the run fail.
pub open spec fn skip_extensions(
    s: Seq<TokenModel>,
    stack: Seq<(Seq<char>, Seq<char>)>,
) -> Option<Seq<TokenModel>>
    decreases s.len(),
{
    if s.len() == 0 {
        Some(s)
    } else {
        match s[0] {
            TokenModel::OpenExt(n, ns) => skip_extensions(s.drop_first(), stack.push((n, ns))),
            TokenModel::CloseExt(n, ns) => {
                if stack.len() > 0 && stack.last() == (n, ns) {
                    skip_extensions(s.drop_first(), stack.drop_last())
                } else {
                    None
                }
            },
            TokenModel::Text(_) => {
                if stack.len() > 0 {
                    skip_extensions(s.drop_first(), stack)
                } else {
                    None
                }
            },
            _ => {
                if stack.len() == 0 {
                    Some(s)
                } else {
                    None
                }
            },
        }
    }
}

/// The text of the leading run of text tokens, and what follows the run.
pub open spec fn text_run(s: Seq<TokenModel>) -> (Seq<char>, Seq<TokenModel>)
    decreases s.len(),
{
    if s.len() > 0 && s[0] is Text {
        let (t, rest) = text_run(s.drop_first());
        (s[0]->Text_0 + t, rest)
    } else {
        (Seq::empty(), s)
    }
}

/// `<name>TEXT</name>`, giving the text.
pub open spec fn text_element(s: Seq<TokenModel>, name: &str) -> Option<(Seq<char>, Seq<TokenModel>)> {
    if s.len() > 0 && is_open(s[0], name) {
        let (t, rest) = text_run(s.drop_first());
        if rest.len() > 0 && is_close(rest[0], name) {
            Some((t, rest.drop_first()))
        } else {
            None
        }
    } else {
        None
    }
}

/// `<prop><resourcetype>(<collection/>)?</resourcetype></prop>`, giving
/// whether `collection` is there. Extension blocks may stand before and
/// after `resourcetype` and `collection`.
pub open spec fn prop_element(s: Seq<TokenModel>) -> Option<(bool, Seq<TokenModel>)> {
    if s.len() > 0 && is_open(s[0], "prop") {
        match skip_extensions(s.drop_first(), Seq::empty()) {
            None => None,
            Some(a) => if a.len() > 0 && is_open(a[0], "resourcetype") {
                match skip_extensions(a.drop_first(), Seq::empty()) {
                    None => None,
                    Some(b) => {
                        let has_collection = b.len() >= 2 && is_open(b[0], "collection")
                            && is_close(b[1], "collection");
                        let after = if has_collection {
                            skip_extensions(b.skip(2), Seq::empty())
                        } else {
                            Some(b)
                        };
                        match after {
                            None => None,
                            Some(c) => if c.len() > 0 && is_close(c[0], "resourcetype") {
                                match skip_extensions(c.drop_first(), Seq::empty()) {
                                    None => None,
                                    Some(d) => if d.len() > 0 && is_close(d[0], "prop") {
                                        Some((has_collection, d.drop_first()))
                                    } else {
                                        None
                                    },
                                }
                            } else {
                                None
                            },
                        }
                    },
                }
            } else {
                None
            },
        }
    } else {
        None
    }
}

/// `<location>href</location>`, with extension blocks around the href.
pub open spec fn location_element(s: Seq<TokenModel>) -> Option<Seq<TokenModel>> {
    if s.len() > 0 && is_open(s[0], "location") {
        match skip_extensions(s.drop_first(), Seq::empty()) {
            None => None,
            Some(a) => match text_element(a, "href") {
                None => None,
                Some((_, b)) => match skip_extensions(b, Seq::empty()) {
                    None => None,
                    Some(c) => if c.len() > 0 && is_close(c[0], "location") {
                        Some(c.drop_first())
                    } else {
                        None
                    },
                },
            },
        }
    } else {
        None
    }
}

/// The children of a `propstat` up to and including its end tag, with the
/// `prop` and `status` read so far; each must come exactly once.
pub open spec fn propstat_body(
    s: Seq<TokenModel>,
    is_collection: Option<bool>,
    status: Option<Seq<char>>,
) -> Option<(bool, Seq<char>, Seq<TokenModel>)>
    decreases s.len(),
{
    match skip_extensions(s, Seq::empty()) {
        None => None,
        Some(a) => {
            if a.len() == 0 {
                None
            } else if is_open(a[0], "prop") {
                match prop_element(a) {
                    None => None,
                    Some((c, b)) => if is_collection is None && b.len() < s.len() {
                        propstat_body(b, Some(c), status)
                    } else {
                        None
                    },
                }
            } else if is_open(a[0], "status") {
                match text_element(a, "status") {
                    None => None,
                    Some((t, b)) => if status is None && b.len() < s.len() {
                        propstat_body(b, is_collection, Some(t))
                    } else {
                        None
                    },
                }
            } else if is_open(a[0], "responsedescription") {
                match text_element(a, "responsedescription") {
                    None => None,
                    Some((_, b)) => if b.len() < s.len() {
                        propstat_body(b, is_collection, status)
                    } else {
                        None
                    },
                }
            } else if is_close(a[0], "propstat") {
                match (is_collection, status) {
                    (Some(c), Some(t)) => Some((c, t, a.drop_first())),
                    _ => None,
                }
            } else {
                None
            }
        },
    }
}

/// A whole `propstat` element, giving its `resourcetype` and `status`.
pub open spec fn propstat_element(s: Seq<TokenModel>) -> Option<(bool, Seq<char>, Seq<TokenModel>)> {
    if s.len() > 0 && is_open(s[0], "propstat") {
        propstat_body(s.drop_first(), None, None)
    } else {
        None
    }
}

/// The children of a `response` up to and including its end tag, with the
/// `href` and `propstat` read so far; each must come exactly once.
pub open spec fn response_body(
    s: Seq<TokenModel>,
    href: Option<Seq<char>>,
    propstat: Option<(bool, Seq<char>)>,
) -> Option<(ResponseModel, Seq<TokenModel>)>
    decreases s.len(),
{
    match skip_extensions(s, Seq::empty()) {
        None => None,
        Some(a) => {
            if a.len() == 0 {
                None
            } else if is_open(a[0], "href") {
                match text_element(a, "href") {
                    None => None,
                    Some((h, b)) => if href is None && b.len() < s.len() {
                        response_body(b, Some(h), propstat)
                    } else {
                        None
                    },
                }
            } else if is_open(a[0], "propstat") {
                match propstat_element(a) {
                    None => None,
                    Some((c, t, b)) => if propstat is None && b.len() < s.len() {
                        response_body(b, href, Some((c, t)))
                    } else {
                        None
                    },
                }
            } else if is_open(a[0], "responsedescription") {
                match text_element(a, "responsedescription") {
                    None => None,
                    Some((_, b)) => if b.len() < s.len() {
                        response_body(b, href, propstat)
                    } else {
                        None
                    },
                }
            } else if is_open(a[0], "location") {
                match location_element(a) {
                    None => None,
                    Some(b) => if b.len() < s.len() {
                        response_body(b, href, propstat)
                    } else {
                        None
                    },
                }
            } else if is_close(a[0], "response") {
                match (href, propstat) {
                    (Some(h), Some((c, t))) => Some(
                        (ResponseModel { href: h, is_collection: c, status: t }, a.drop_first()),
                    ),
                    _ => None,
                }
            } else {
                None
            }
        },
    }
}

/// A whole `response` element.
pub open spec fn response_element(s: Seq<TokenModel>) -> Option<(ResponseModel, Seq<TokenModel>)> {
    if s.len() > 0 && is_open(s[0], "response") {
        response_body(s.drop_first(), None, None)
    } else {
        None
    }
}

/// The children of `multistatus` through its end tag, which must be the last
/// token, after the responses `acc` read so far.
pub open spec fn multistatus_body(s: Seq<TokenModel>, acc: Seq<ResponseModel>) -> Option<
    Seq<ResponseModel>,
>
    decreases s.len(),
{
    match skip_extensions(s, Seq::empty()) {
        None => None,
        Some(a) => {
            if a.len() == 0 {
                None
            } else if is_open(a[0], "response") {
                match response_element(a) {
                    None => None,
                    Some((r, b)) => if b.len() < s.len() {
                        multistatus_body(b, acc.push(r))
                    } else {
                        None
                    },
                }
            } else if is_open(a[0], "responsedescription") {
                match text_element(a, "responsedescription") {
                    None => None,
                    Some((_, b)) => if b.len() < s.len() {
                        multistatus_body(b, acc)
                    } else {
                        None
                    },
                }
            } else if is_close(a[0], "multistatus") && a.len() == 1 {
                Some(acc)
            } else {
                None
            }
        },
    }
}

/// The responses of a whole `multistatus` document, in document order.
pub open spec fn multistatus(s: Seq<TokenModel>) -> Option<Seq<ResponseModel>> {
    if s.len() > 0 && is_open(s[0], "multistatus") {
        multistatus_body(s.drop_first(), Seq::empty())
    } else {
        None
    }
}

/// ASCII whitespace as `char::is_ascii_whitespace` has it.
pub open spec fn is_ascii_space(c: char) -> bool {
    c == ' ' || c == '\t' || c == '\n' || c == '\x0C' || c == '\r'
}

/// `s` without its leading ASCII whitespace.
pub open spec fn trim_start(s: Seq<char>) -> Seq<char>
    decreases s.len(),
{
    if s.len() > 0 && is_ascii_space(s[0]) {
        trim_start(s.drop_first())
    } else {
        s
    }
}

/// The longest prefix of `s` without ASCII whitespace.
pub open spec fn first_word(s: Seq<char>) -> Seq<char>
    decreases s.len(),
{
    if s.len() > 0 && !is_ascii_space(s[0]) {
        seq![s[0]] + first_word(s.drop_first())
    } else {
        Seq::empty()
    }
}

/// Whether a status line reads `HTTP/<version> 200 ...`: its first word
/// starts with `HTTP/` and its second word is `200`.
pub open spec fn status_is_ok(line: Seq<char>) -> bool {
    let a = trim_start(line);
    let version = first_word(a);
    let code = first_word(trim_start(a.skip(version.len() as int)));
    version.len() > 0 && "HTTP/"@.is_prefix_of(version) && code == "200"@
}

/// The listing made of responses that all carry an OK status, each href
/// routed by its `resourcetype`; or the first response, in document order,
/// whose status is not OK.
pub open spec fn classify(rs: Seq<ResponseModel>) -> Result<ListingModel, FailureModel>
    decreases rs.len(),
{
    if rs.len() == 0 {
        Ok(ListingModel { directories: Seq::empty(), files: Seq::empty() })
    } else {
        match classify(rs.drop_last()) {
            Err(e) => Err(e),
            Ok(l) => {
                let r = rs.last();
                if !status_is_ok(r.status) {
                    Err(FailureModel::BadStatus { href: r.href, status: r.status })
                } else if r.is_collection {
                    Ok(ListingModel { directories: l.directories.push(r.href), files: l.files })
                } else {
                    Ok(ListingModel { directories: l.directories, files: l.files.push(r.href) })
                }
            },
        }
    }
}

/// What the parser makes of a token stream.
pub open spec fn parse_model(s: Seq<TokenModel>) -> Result<ListingModel, FailureModel> {
    match multistatus(s) {
        None => Err(FailureModel::Parse),
        Some(rs) => classify(rs),
    }
}

} // verus!
