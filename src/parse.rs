//! The recognizer for `multistatus` token streams.
use vstd::prelude::*;
use crate::grammar::{
    classify, is_close, is_open, location_element, multistatus, multistatus_body, parse_model,
    prop_element, propstat_body, propstat_element, response_body, response_element,
    skip_extensions, text_element, text_run, FailureModel, ListingModel, ResponseModel,
};
use crate::listing::{texts, DirectoryListing};
use crate::status::is_ok;
use crate::token::{model, opt_view, same_text, Token, TokenModel};
use crate::tokenize::{tokenize, tokens_of_events, xml_events, XmlTokenizeError};

verus! {

/// Why a `multistatus` body gives no listing.
#[derive(Debug, PartialEq)]
pub enum FromXmlError {
    /// The body is not well-formed XML, or holds a processing instruction.
    Tokenize(XmlTokenizeError),
    /// The tokens do not match the multistatus grammar.
    Parse,
    /// A response's status is not `200`.
    BadStatus { href: String, status: String },
}

/// What a parse with this result reports, as grammar values.
pub open spec fn agrees(r: Result<DirectoryListing, FromXmlError>, m: Result<ListingModel, FailureModel>) -> bool {
    match m {
        Ok(l) => r matches Ok(d) && d@ == l,
        Err(FailureModel::Parse) => r matches Err(FromXmlError::Parse),
        Err(FailureModel::BadStatus { href, status }) => r matches Err(
            FromXmlError::BadStatus { href: h, status: st },
        ) && h@ == href && st@ == status,
    }
}

/// One parsed `response` element.
pub struct Response {
    pub href: String,
    pub is_collection: bool,
    pub status: String,
}

impl View for Response {
    type V = ResponseModel;

    open spec fn view(&self) -> ResponseModel {
        ResponseModel { href: self.href@, is_collection: self.is_collection, status: self.status@ }
    }
}

spec fn responses(v: Seq<Response>) -> Seq<ResponseModel> {
    v.map_values(|r: Response| r@)
}

/// The tokens from position `i` on.
spec fn rest(toks: &[Token], i: int) -> Seq<TokenModel> {
    model(toks@).skip(i)
}

proof fn lemma_rest_step(toks: &[Token], i: int)
    requires
        0 <= i < toks@.len(),
    ensures
        rest(toks, i).len() > 0,
        rest(toks, i)[0] == toks@[i]@,
        rest(toks, i).drop_first() == rest(toks, i + 1),
{
    assert(rest(toks, i).drop_first() =~= rest(toks, i + 1));
}

proof fn lemma_rest_skip(toks: &[Token], i: int, n: int)
    requires
        0 <= i,
        0 <= n,
        i + n <= toks@.len(),
    ensures
        rest(toks, i).skip(n) == rest(toks, i + n),
        forall|k: int| 0 <= k < n ==> #[trigger] rest(toks, i)[k] == toks@[i + k]@,
{
    assert(rest(toks, i).skip(n) =~= rest(toks, i + n));
}

/// Whether the token at `i` is the start tag `<name>` of a standard element.
fn open_at(toks: &[Token], i: usize, name: &str) -> (r: bool)
    requires
        toks@.len() <= usize::MAX,
    ensures
        r == (i < toks@.len() && is_open(toks@[i as int]@, name)),
{
    if i < toks.len() {
        match &toks[i] {
            Token::OpenStd(n) => same_text(n.as_str(), name),
            _ => false,
        }
    } else {
        false
    }
}

/// Whether the token at `i` is the end tag `</name>` of a standard element.
fn close_at(toks: &[Token], i: usize, name: &str) -> (r: bool)
    requires
        toks@.len() <= usize::MAX,
    ensures
        r == (i < toks@.len() && is_close(toks@[i as int]@, name)),
{
    if i < toks.len() {
        match &toks[i] {
            Token::CloseStd(n) => same_text(n.as_str(), name),
            _ => false,
        }
    } else {
        false
    }
}

/// The names of the open extension elements whose start tags stand at the
/// positions in `stack`.
spec fn open_names(toks: Seq<Token>, stack: Seq<usize>) -> Seq<(Seq<char>, Seq<char>)> {
    stack.map_values(|k: usize| (toks[k as int]@->OpenExt_0, toks[k as int]@->OpenExt_1))
}

/// Skips the extension blocks that start at `i`; gives where they end.
fn skip_ext(toks: &[Token], i: usize) -> (r: Option<usize>)
    requires
        i <= toks@.len(),
        toks@.len() <= usize::MAX,
    ensures
        match r {
            None => skip_extensions(rest(toks, i as int), Seq::empty()) is None,
            Some(j) => i <= j <= toks@.len() && skip_extensions(rest(toks, i as int), Seq::empty())
                == Some(rest(toks, j as int)),
        },
{
    let mut stack: Vec<usize> = Vec::new();
    let mut k: usize = i;
    proof {
        assert(open_names(toks@, stack@) =~= Seq::empty());
    }
    while k < toks.len()
        invariant
            i <= k <= toks@.len(),
            forall|x: int| 0 <= x < stack@.len() ==> #[trigger] stack@[x] < toks@.len()
                && toks@[stack@[x] as int]@ is OpenExt,
            skip_extensions(rest(toks, i as int), Seq::empty()) == skip_extensions(
                rest(toks, k as int),
                open_names(toks@, stack@),
            ),
        decreases toks.len() - k,
    {
        proof {
            lemma_rest_step(toks, k as int);
        }
        let ghost names = open_names(toks@, stack@);
        match &toks[k] {
            Token::OpenExt { .. } => {
                stack.push(k);
                proof {
                    assert(open_names(toks@, stack@) =~= names.push(
                        (toks@[k as int]@->OpenExt_0, toks@[k as int]@->OpenExt_1),
                    ));
                }
            },
            Token::CloseExt { name, namespace } => {
                if stack.len() == 0 {
                    return None;
                }
                let top = stack[stack.len() - 1];
                let matches = match &toks[top] {
                    Token::OpenExt { name: n, namespace: ns } => same_text(name.as_str(), n.as_str())
                        && same_text(namespace.as_str(), ns.as_str()),
                    _ => false,
                };
                if !matches {
                    return None;
                }
                stack.pop();
                proof {
                    assert(open_names(toks@, stack@) =~= names.drop_last());
                }
            },
            Token::Text(_) => {
                if stack.len() == 0 {
                    return None;
                }
            },
            _ => {
                if stack.len() == 0 {
                    return Some(k);
                } else {
                    return None;
                }
            },
        }
        k = k + 1;
    }
    Some(k)
}

/// Reads the run of text tokens at `i`; gives their text and where the run ends.
fn read_text(toks: &[Token], i: usize) -> (r: (String, usize))
    requires
        i <= toks@.len(),
        toks@.len() <= usize::MAX,
    ensures
        i <= r.1 <= toks@.len(),
        text_run(rest(toks, i as int)) == (r.0@, rest(toks, r.1 as int)),
{
    let mut acc = String::new();
    let mut k: usize = i;
    while k < toks.len()
        invariant
            i <= k <= toks@.len(),
            text_run(rest(toks, i as int)) == (
                acc@ + text_run(rest(toks, k as int)).0,
                text_run(rest(toks, k as int)).1,
            ),
        decreases toks.len() - k,
    {
        proof {
            lemma_rest_step(toks, k as int);
        }
        match &toks[k] {
            Token::Text(t) => {
                let ghost tail = text_run(rest(toks, k as int + 1)).0;
                proof {
                    assert(acc@ + (t@ + tail) =~= (acc@ + t@) + tail);
                }
                acc.append(t.as_str());
            },
            _ => {
                proof {
                    assert(acc@ + Seq::empty() =~= acc@);
                }
                return (acc, k);
            },
        }
        k = k + 1;
    }
    proof {
        assert(acc@ + Seq::empty() =~= acc@);
    }
    (acc, k)
}

/// Reads `<name>TEXT</name>` at `i`.
fn text_elem(toks: &[Token], i: usize, name: &str) -> (r: Option<(String, usize)>)
    requires
        i <= toks@.len(),
        toks@.len() <= usize::MAX,
    ensures
        match r {
            None => text_element(rest(toks, i as int), name) is None,
            Some((t, j)) => i < j <= toks@.len() && text_element(rest(toks, i as int), name) == Some(
                (t@, rest(toks, j as int)),
            ),
        },
{
    if !open_at(toks, i, name) {
        return None;
    }
    proof {
        lemma_rest_step(toks, i as int);
    }
    let (t, j) = read_text(toks, i + 1);
    if !close_at(toks, j, name) {
        proof {
            if j < toks@.len() {
                lemma_rest_step(toks, j as int);
            }
        }
        return None;
    }
    proof {
        lemma_rest_step(toks, j as int);
    }
    Some((t, j + 1))
}

/// Reads `<prop><resourcetype>(<collection/>)?</resourcetype></prop>` at `i`,
/// with extension blocks around `resourcetype` and `collection`.
fn prop_elem(toks: &[Token], i: usize) -> (r: Option<(bool, usize)>)
    requires
        i <= toks@.len(),
        toks@.len() <= usize::MAX,
    ensures
        match r {
            None => prop_element(rest(toks, i as int)) is None,
            Some((c, j)) => i < j <= toks@.len() && prop_element(rest(toks, i as int)) == Some(
                (c, rest(toks, j as int)),
            ),
        },
{
    if !open_at(toks, i, "prop") {
        return None;
    }
    proof {
        lemma_rest_step(toks, i as int);
    }
    let a = match skip_ext(toks, i + 1) {
        None => return None,
        Some(a) => a,
    };
    proof {
        if a < toks@.len() {
            lemma_rest_step(toks, a as int);
        }
    }
    if !open_at(toks, a, "resourcetype") {
        return None;
    }
    let b = match skip_ext(toks, a + 1) {
        None => return None,
        Some(b) => b,
    };
    proof {
        if b + 2 <= toks@.len() {
            lemma_rest_skip(toks, b as int, 2);
        }
    }
    let has_collection = open_at(toks, b, "collection") && close_at(toks, b + 1, "collection");
    let c = if has_collection {
        match skip_ext(toks, b + 2) {
            None => return None,
            Some(c) => c,
        }
    } else {
        b
    };
    proof {
        if c < toks@.len() {
            lemma_rest_step(toks, c as int);
        }
    }
    if !close_at(toks, c, "resourcetype") {
        return None;
    }
    let d = match skip_ext(toks, c + 1) {
        None => return None,
        Some(d) => d,
    };
    proof {
        if d < toks@.len() {
            lemma_rest_step(toks, d as int);
        }
    }
    if !close_at(toks, d, "prop") {
        return None;
    }
    Some((has_collection, d + 1))
}

/// Reads `<location>` with its href at `i`.
fn location_elem(toks: &[Token], i: usize) -> (r: Option<usize>)
    requires
        i <= toks@.len(),
        toks@.len() <= usize::MAX,
    ensures
        match r {
            None => location_element(rest(toks, i as int)) is None,
            Some(j) => i < j <= toks@.len() && location_element(rest(toks, i as int)) == Some(
                rest(toks, j as int),
            ),
        },
{
    if !open_at(toks, i, "location") {
        return None;
    }
    proof {
        lemma_rest_step(toks, i as int);
    }
    let a = match skip_ext(toks, i + 1) {
        None => return None,
        Some(a) => a,
    };
    let b = match text_elem(toks, a, "href") {
        None => return None,
        Some((_, b)) => b,
    };
    let c = match skip_ext(toks, b) {
        None => return None,
        Some(c) => c,
    };
    if !close_at(toks, c, "location") {
        return None;
    }
    proof {
        lemma_rest_step(toks, c as int);
    }
    Some(c + 1)
}

/// Reads a `propstat` element at `i`, giving its `resourcetype` and `status`.
fn propstat_elem(toks: &[Token], i: usize) -> (r: Option<(bool, String, usize)>)
    requires
        i <= toks@.len(),
        toks@.len() <= usize::MAX,
    ensures
        match r {
            None => propstat_element(rest(toks, i as int)) is None,
            Some((c, t, j)) => i < j <= toks@.len() && propstat_element(rest(toks, i as int))
                == Some((c, t@, rest(toks, j as int))),
        },
{
    if !open_at(toks, i, "propstat") {
        return None;
    }
    proof {
        lemma_rest_step(toks, i as int);
    }
    let mut is_collection: Option<bool> = None;
    let mut status: Option<String> = None;
    let mut k: usize = i + 1;
    loop
        invariant
            i < k <= toks@.len(),
            propstat_element(rest(toks, i as int)) == propstat_body(
                rest(toks, k as int),
                is_collection,
                crate::token::opt_view(status),
            ),
        decreases toks.len() - k,
    {
        let a = match skip_ext(toks, k) {
            None => return None,
            Some(a) => a,
        };
        if a == toks.len() {
            return None;
        }
        proof {
            lemma_rest_step(toks, a as int);
        }
        if open_at(toks, a, "prop") {
            match prop_elem(toks, a) {
                None => return None,
                Some((c, b)) => {
                    if is_collection.is_some() {
                        return None;
                    }
                    is_collection = Some(c);
                    k = b;
                },
            }
        } else if open_at(toks, a, "status") {
            match text_elem(toks, a, "status") {
                None => return None,
                Some((t, b)) => {
                    if status.is_some() {
                        return None;
                    }
                    status = Some(t);
                    k = b;
                },
            }
        } else if open_at(toks, a, "responsedescription") {
            match text_elem(toks, a, "responsedescription") {
                None => return None,
                Some((_, b)) => {
                    k = b;
                },
            }
        } else if close_at(toks, a, "propstat") {
            match (is_collection, status) {
                (Some(c), Some(t)) => {
                    return Some((c, t, a + 1));
                },
                _ => {
                    return None;
                },
            }
        } else {
            return None;
        }
    }
}

/// Reads a `response` element at `i`.
fn response_elem(toks: &[Token], i: usize) -> (r: Option<(Response, usize)>)
    requires
        i <= toks@.len(),
        toks@.len() <= usize::MAX,
    ensures
        match r {
            None => response_element(rest(toks, i as int)) is None,
            Some((resp, j)) => i < j <= toks@.len() && response_element(rest(toks, i as int))
                == Some((resp@, rest(toks, j as int))),
        },
{
    if !open_at(toks, i, "response") {
        return None;
    }
    proof {
        lemma_rest_step(toks, i as int);
    }
    let mut href: Option<String> = None;
    let mut propstat: Option<(bool, String)> = None;
    let mut k: usize = i + 1;
    loop
        invariant
            i < k <= toks@.len(),
            response_element(rest(toks, i as int)) == response_body(
                rest(toks, k as int),
                crate::token::opt_view(href),
                match propstat {
                    Some((c, t)) => Some((c, t@)),
                    None => None,
                },
            ),
        decreases toks.len() - k,
    {
        let a = match skip_ext(toks, k) {
            None => return None,
            Some(a) => a,
        };
        if a == toks.len() {
            return None;
        }
        proof {
            lemma_rest_step(toks, a as int);
        }
        if open_at(toks, a, "href") {
            match text_elem(toks, a, "href") {
                None => return None,
                Some((h, b)) => {
                    if href.is_some() {
                        return None;
                    }
                    href = Some(h);
                    k = b;
                },
            }
        } else if open_at(toks, a, "propstat") {
            match propstat_elem(toks, a) {
                None => return None,
                Some((c, t, b)) => {
                    if propstat.is_some() {
                        return None;
                    }
                    propstat = Some((c, t));
                    k = b;
                },
            }
        } else if open_at(toks, a, "responsedescription") {
            match text_elem(toks, a, "responsedescription") {
                None => return None,
                Some((_, b)) => {
                    k = b;
                },
            }
        } else if open_at(toks, a, "location") {
            match location_elem(toks, a) {
                None => return None,
                Some(b) => {
                    k = b;
                },
            }
        } else if close_at(toks, a, "response") {
            match (href, propstat) {
                (Some(h), Some((c, t))) => {
                    return Some((Response { href: h, is_collection: c, status: t }, a + 1));
                },
                _ => {
                    return None;
                },
            }
        } else {
            return None;
        }
    }
}

/// Reads a whole `multistatus` document: the responses in document order.
fn multistatus_elem(toks: &[Token]) -> (r: Option<Vec<Response>>)
    requires
        toks@.len() <= usize::MAX,
    ensures
        match r {
            None => multistatus(model(toks@)) is None,
            Some(v) => multistatus(model(toks@)) == Some(responses(v@)),
        },
{
    proof {
        assert(rest(toks, 0) =~= model(toks@));
    }
    if !open_at(toks, 0, "multistatus") {
        return None;
    }
    proof {
        lemma_rest_step(toks, 0);
    }
    let mut acc: Vec<Response> = Vec::new();
    let mut k: usize = 1;
    proof {
        assert(responses(acc@) =~= Seq::empty());
    }
    loop
        invariant
            0 < k <= toks@.len(),
            multistatus(model(toks@)) == multistatus_body(rest(toks, k as int), responses(acc@)),
        decreases toks.len() - k,
    {
        let a = match skip_ext(toks, k) {
            None => return None,
            Some(a) => a,
        };
        if a == toks.len() {
            return None;
        }
        proof {
            lemma_rest_step(toks, a as int);
        }
        if open_at(toks, a, "response") {
            match response_elem(toks, a) {
                None => return None,
                Some((resp, b)) => {
                    let ghost before = acc@;
                    acc.push(resp);
                    proof {
                        assert(responses(acc@) =~= responses(before).push(resp@));
                    }
                    k = b;
                },
            }
        } else if open_at(toks, a, "responsedescription") {
            match text_elem(toks, a, "responsedescription") {
                None => return None,
                Some((_, b)) => {
                    k = b;
                },
            }
        } else if close_at(toks, a, "multistatus") && a + 1 == toks.len() {
            return Some(acc);
        } else {
            return None;
        }
    }
}

/// Once a prefix of the responses fails to classify, the whole sequence
/// fails in the same way.
pub(crate) proof fn lemma_classify_first_failure(rs: Seq<ResponseModel>, k: int)
    requires
        0 <= k <= rs.len(),
        classify(rs.take(k)) is Err,
    ensures
        classify(rs) == classify(rs.take(k)),
    decreases rs.len() - k,
{
    if k == rs.len() {
        assert(rs.take(k) =~= rs);
    } else {
        let shorter = rs.drop_last();
        assert(shorter.take(k) =~= rs.take(k));
        lemma_classify_first_failure(shorter, k);
    }
}

/// Turns a multistatus token stream into a directory listing.
///
/// The tokens must match the grammar, or the result is `Parse`. Then every
/// response must carry a `200` status, or the result names the first one
/// that does not. Collections go to `directories`, other resources to
/// `files`, each in document order.
pub fn parse(tokens: &[Token]) -> (r: Result<DirectoryListing, FromXmlError>)
    ensures
        agrees(r, parse_model(model(tokens@))),
{
    let n = tokens.len();
    let rs = match multistatus_elem(tokens) {
        None => return Err(FromXmlError::Parse),
        Some(rs) => rs,
    };
    let ghost all = responses(rs@);
    let mut directories: Vec<String> = Vec::new();
    let mut files: Vec<String> = Vec::new();
    let mut k: usize = 0;
    proof {
        assert(all.take(0) =~= Seq::<ResponseModel>::empty());
        assert(texts(directories@) =~= Seq::empty());
        assert(texts(files@) =~= Seq::empty());
    }
    while k < rs.len()
        invariant
            all == responses(rs@),
            multistatus(model(tokens@)) == Some(all),
            k <= rs@.len(),
            classify(all.take(k as int)) == Ok::<ListingModel, FailureModel>(
                ListingModel { directories: texts(directories@), files: texts(files@) },
            ),
        decreases rs.len() - k,
    {
        let resp = &rs[k];
        proof {
            assert(all.take(k + 1).drop_last() =~= all.take(k as int));
            assert(all.take(k + 1).last() == resp@);
        }
        if !is_ok(resp.status.as_str()) {
            proof {
                assert(classify(all.take(k + 1)) == Err::<ListingModel, FailureModel>(
                    FailureModel::BadStatus { href: resp.href@, status: resp.status@ },
                ));
                lemma_classify_first_failure(all, k + 1);
            }
            let href = resp.href.clone();
            let status = resp.status.clone();
            return Err(FromXmlError::BadStatus { href, status });
        }
        let ghost (d0, f0) = (directories@, files@);
        if resp.is_collection {
            directories.push(resp.href.clone());
            proof {
                assert(texts(directories@) =~= texts(d0).push(resp.href@));
            }
        } else {
            files.push(resp.href.clone());
            proof {
                assert(texts(files@) =~= texts(f0).push(resp.href@));
            }
        }
        k = k + 1;
    }
    proof {
        assert(all.take(k as int) =~= all);
    }
    Ok(DirectoryListing { directories, files })
}

} // verus!

verus! {

/// What the parser makes of a body, as a chain of the reader's events, the
/// tokens they give, and the grammar.
pub open spec fn body_agrees(
    blob: Seq<u8>,
    charset: Option<Seq<char>>,
    r: Result<DirectoryListing, FromXmlError>,
) -> bool {
    match xml_events(blob, charset) {
        None => r matches Err(FromXmlError::Tokenize(XmlTokenizeError::Xml(_))),
        Some(evs) => match tokens_of_events(evs) {
            None => r matches Err(FromXmlError::Tokenize(XmlTokenizeError::ProcessingInstruction)),
            Some(ts) => agrees(r, parse_model(ts)),
        },
    }
}

/// Reads a `multistatus` body into a directory listing of raw hrefs.
///
/// `charset`, where given and known to the XML reader, overrides the
/// encoding that the document declares.
pub fn parse_multistatus(blob: &[u8], charset: Option<String>) -> (r: Result<
    DirectoryListing,
    FromXmlError,
>)
    ensures
        body_agrees(blob@, opt_view(charset), r),
{
    match tokenize(blob, &charset) {
        Err(e) => Err(FromXmlError::Tokenize(e)),
        Ok(tokens) => parse(tokens.as_slice()),
    }
}

} // verus!
