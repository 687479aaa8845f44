//! Multistatus documents as trees of parts, the tokens they are written as,
//! and what the parser makes of them.
//!
//! The laws at the end hold of every document: the order of the children of
//! `response` and `propstat` does not matter, extension blocks are ignored,
//! duplicates are refused, `resourcetype` decides between directory and
//! file, and a status other than `200` is reported with its href.
use vstd::prelude::*;
use crate::grammar::{
    classify, location_element, multistatus, multistatus_body, parse_model, prop_element,
    propstat_body, response_body, skip_extensions, text_element, text_run, FailureModel,
    ResponseModel,
};
use crate::token::TokenModel;

verus! {

/// A child of `propstat`.
pub enum PropstatPart {
    /// `<prop><resourcetype/></prop>`, with `<collection/>` inside
    /// `resourcetype` where `collection` is set, and extension blocks before
    /// `resourcetype`, at the start of it, after `collection` and after
    /// `resourcetype`.
    Prop {
        collection: bool,
        before_type: Seq<TokenModel>,
        in_type: Seq<TokenModel>,
        after_collection: Seq<TokenModel>,
        after_type: Seq<TokenModel>,
    },
    Status(Seq<char>),
    Description(Seq<char>),
    /// A block of extension elements, written as it stands.
    Extension(Seq<TokenModel>),
}

/// A child of `response`.
pub enum ResponsePart {
    Href(Seq<char>),
    Propstat(Seq<PropstatPart>),
    Description(Seq<char>),
    /// `<location><href>..</href></location>`, with extension blocks
    /// around the href.
    Location { href: Seq<char>, before: Seq<TokenModel>, after: Seq<TokenModel> },
    Extension(Seq<TokenModel>),
}

/// A child of `multistatus`.
pub enum DocumentPart {
    Response(Seq<ResponsePart>),
    Description(Seq<char>),
    Extension(Seq<TokenModel>),
}

// ---------------------------------------------------------------------------
// Writing documents as tokens

pub open spec fn text_tokens(t: Seq<char>) -> Seq<TokenModel> {
    if t.len() == 0 {
        Seq::empty()
    } else {
        seq![TokenModel::Text(t)]
    }
}

pub open spec fn text_element_tokens(name: &str, t: Seq<char>) -> Seq<TokenModel> {
    seq![TokenModel::OpenStd(name@)] + text_tokens(t) + seq![TokenModel::CloseStd(name@)]
}

pub open spec fn prop_tokens(
    collection: bool,
    before_type: Seq<TokenModel>,
    in_type: Seq<TokenModel>,
    after_collection: Seq<TokenModel>,
    after_type: Seq<TokenModel>,
) -> Seq<TokenModel> {
    seq![TokenModel::OpenStd("prop"@)] + before_type + seq![TokenModel::OpenStd("resourcetype"@)]
        + in_type + (if collection {
        seq![TokenModel::OpenStd("collection"@), TokenModel::CloseStd("collection"@)]
    } else {
        Seq::empty()
    }) + after_collection + seq![TokenModel::CloseStd("resourcetype"@)] + after_type + seq![
        TokenModel::CloseStd("prop"@),
    ]
}

pub open spec fn propstat_part_tokens(p: PropstatPart) -> Seq<TokenModel> {
    match p {
        PropstatPart::Prop { collection, before_type, in_type, after_collection, after_type } =>
            prop_tokens(collection, before_type, in_type, after_collection, after_type),
        PropstatPart::Status(t) => text_element_tokens("status", t),
        PropstatPart::Description(t) => text_element_tokens("responsedescription", t),
        PropstatPart::Extension(ts) => ts,
    }
}

pub open spec fn propstat_parts_tokens(ps: Seq<PropstatPart>) -> Seq<TokenModel>
    decreases ps.len(),
{
    if ps.len() == 0 {
        Seq::empty()
    } else {
        propstat_part_tokens(ps[0]) + propstat_parts_tokens(ps.drop_first())
    }
}

pub open spec fn propstat_tokens(ps: Seq<PropstatPart>) -> Seq<TokenModel> {
    seq![TokenModel::OpenStd("propstat"@)] + propstat_parts_tokens(ps) + seq![
        TokenModel::CloseStd("propstat"@),
    ]
}

pub open spec fn location_tokens(h: Seq<char>, before: Seq<TokenModel>, after: Seq<TokenModel>) -> Seq<
    TokenModel,
> {
    seq![TokenModel::OpenStd("location"@)] + before + text_element_tokens("href", h) + after + seq![
        TokenModel::CloseStd("location"@),
    ]
}

pub open spec fn response_part_tokens(p: ResponsePart) -> Seq<TokenModel> {
    match p {
        ResponsePart::Href(h) => text_element_tokens("href", h),
        ResponsePart::Propstat(ps) => propstat_tokens(ps),
        ResponsePart::Description(t) => text_element_tokens("responsedescription", t),
        ResponsePart::Location { href, before, after } => location_tokens(href, before, after),
        ResponsePart::Extension(ts) => ts,
    }
}

pub open spec fn response_parts_tokens(rs: Seq<ResponsePart>) -> Seq<TokenModel>
    decreases rs.len(),
{
    if rs.len() == 0 {
        Seq::empty()
    } else {
        response_part_tokens(rs[0]) + response_parts_tokens(rs.drop_first())
    }
}

pub open spec fn response_tokens(rs: Seq<ResponsePart>) -> Seq<TokenModel> {
    seq![TokenModel::OpenStd("response"@)] + response_parts_tokens(rs) + seq![
        TokenModel::CloseStd("response"@),
    ]
}

pub open spec fn document_part_tokens(p: DocumentPart) -> Seq<TokenModel> {
    match p {
        DocumentPart::Response(rs) => response_tokens(rs),
        DocumentPart::Description(t) => text_element_tokens("responsedescription", t),
        DocumentPart::Extension(ts) => ts,
    }
}

pub open spec fn document_parts_tokens(ds: Seq<DocumentPart>) -> Seq<TokenModel>
    decreases ds.len(),
{
    if ds.len() == 0 {
        Seq::empty()
    } else {
        document_part_tokens(ds[0]) + document_parts_tokens(ds.drop_first())
    }
}

/// The token stream of a whole document.
pub open spec fn document_tokens(ds: Seq<DocumentPart>) -> Seq<TokenModel> {
    seq![TokenModel::OpenStd("multistatus"@)] + document_parts_tokens(ds) + seq![
        TokenModel::CloseStd("multistatus"@),
    ]
}

// ---------------------------------------------------------------------------
// Well-formed extension blocks

/// Reads extension tokens with `stack` open; the elements open at the end,
/// or `None` on stray text, a standard tag or a mismatched end tag.
pub open spec fn extension_scan(ts: Seq<TokenModel>, stack: Seq<(Seq<char>, Seq<char>)>) -> Option<
    Seq<(Seq<char>, Seq<char>)>,
>
    decreases ts.len(),
{
    if ts.len() == 0 {
        Some(stack)
    } else {
        match ts[0] {
            TokenModel::OpenExt(n, ns) => extension_scan(ts.drop_first(), stack.push((n, ns))),
            TokenModel::CloseExt(n, ns) => {
                if stack.len() > 0 && stack.last() == (n, ns) {
                    extension_scan(ts.drop_first(), stack.drop_last())
                } else {
                    None
                }
            },
            TokenModel::Text(_) => {
                if stack.len() > 0 {
                    extension_scan(ts.drop_first(), stack)
                } else {
                    None
                }
            },
            _ => None,
        }
    }
}

/// A run of well-nested extension elements, with text only inside them.
pub open spec fn extension_block(ts: Seq<TokenModel>) -> bool {
    extension_scan(ts, Seq::empty()) == Some(Seq::<(Seq<char>, Seq<char>)>::empty())
}

pub open spec fn propstat_part_wf(p: PropstatPart) -> bool {
    match p {
        PropstatPart::Prop { before_type, in_type, after_collection, after_type, .. } =>
            extension_block(before_type) && extension_block(in_type) && extension_block(
            after_collection,
        ) && extension_block(after_type),
        PropstatPart::Extension(b) => extension_block(b),
        _ => true,
    }
}

pub open spec fn propstat_parts_wf(ps: Seq<PropstatPart>) -> bool {
    forall|i: int| 0 <= i < ps.len() ==> propstat_part_wf(#[trigger] ps[i])
}

pub open spec fn response_part_wf(p: ResponsePart) -> bool {
    match p {
        ResponsePart::Propstat(ps) => propstat_parts_wf(ps),
        ResponsePart::Location { before, after, .. } => extension_block(before) && extension_block(
            after,
        ),
        ResponsePart::Extension(b) => extension_block(b),
        _ => true,
    }
}

pub open spec fn response_parts_wf(rs: Seq<ResponsePart>) -> bool {
    forall|i: int| 0 <= i < rs.len() ==> response_part_wf(#[trigger] rs[i])
}

pub open spec fn document_part_wf(p: DocumentPart) -> bool {
    match p {
        DocumentPart::Response(rs) => response_parts_wf(rs),
        DocumentPart::Extension(b) => extension_block(b),
        _ => true,
    }
}

/// Every extension block of the document is well-nested.
pub open spec fn document_wf(ds: Seq<DocumentPart>) -> bool {
    forall|i: int| 0 <= i < ds.len() ==> document_part_wf(#[trigger] ds[i])
}

// ---------------------------------------------------------------------------
// What a document means

/// The `prop` and `status` read so far, after one more child; `None` on a
/// duplicate.
pub open spec fn propstat_step(acc: (Option<bool>, Option<Seq<char>>), p: PropstatPart) -> Option<
    (Option<bool>, Option<Seq<char>>),
> {
    match p {
        PropstatPart::Prop { collection: c, .. } => if acc.0 is Some {
            None
        } else {
            Some((Some(c), acc.1))
        },
        PropstatPart::Status(t) => if acc.1 is Some {
            None
        } else {
            Some((acc.0, Some(t)))
        },
        _ => Some(acc),
    }
}

pub open spec fn propstat_fold(ps: Seq<PropstatPart>, acc: (Option<bool>, Option<Seq<char>>)) -> Option<
    (Option<bool>, Option<Seq<char>>),
>
    decreases ps.len(),
{
    if ps.len() == 0 {
        Some(acc)
    } else {
        match propstat_step(acc, ps[0]) {
            None => None,
            Some(a) => propstat_fold(ps.drop_first(), a),
        }
    }
}

/// The `resourcetype` and `status` of a `propstat`, which must hold exactly
/// one of each.
pub open spec fn propstat_value(ps: Seq<PropstatPart>) -> Option<(bool, Seq<char>)> {
    match propstat_fold(ps, (None, None)) {
        Some((Some(c), Some(t))) => Some((c, t)),
        _ => None,
    }
}

pub open spec fn response_step(
    acc: (Option<Seq<char>>, Option<(bool, Seq<char>)>),
    p: ResponsePart,
) -> Option<(Option<Seq<char>>, Option<(bool, Seq<char>)>)> {
    match p {
        ResponsePart::Href(h) => if acc.0 is Some {
            None
        } else {
            Some((Some(h), acc.1))
        },
        ResponsePart::Propstat(ps) => match propstat_value(ps) {
            None => None,
            Some(v) => if acc.1 is Some {
                None
            } else {
                Some((acc.0, Some(v)))
            },
        },
        _ => Some(acc),
    }
}

pub open spec fn response_fold(
    rs: Seq<ResponsePart>,
    acc: (Option<Seq<char>>, Option<(bool, Seq<char>)>),
) -> Option<(Option<Seq<char>>, Option<(bool, Seq<char>)>)>
    decreases rs.len(),
{
    if rs.len() == 0 {
        Some(acc)
    } else {
        match response_step(acc, rs[0]) {
            None => None,
            Some(a) => response_fold(rs.drop_first(), a),
        }
    }
}

/// A `response`, which must hold exactly one `href` and one valid
/// `propstat`.
pub open spec fn response_value(rs: Seq<ResponsePart>) -> Option<ResponseModel> {
    match response_fold(rs, (None, None)) {
        Some((Some(h), Some((c, t)))) => Some(ResponseModel { href: h, is_collection: c, status: t }),
        _ => None,
    }
}

pub open spec fn document_fold(ds: Seq<DocumentPart>, acc: Seq<ResponseModel>) -> Option<
    Seq<ResponseModel>,
>
    decreases ds.len(),
{
    if ds.len() == 0 {
        Some(acc)
    } else {
        match ds[0] {
            DocumentPart::Response(rs) => match response_value(rs) {
                None => None,
                Some(r) => document_fold(ds.drop_first(), acc.push(r)),
            },
            _ => document_fold(ds.drop_first(), acc),
        }
    }
}

/// The responses of a document in order, where each one is valid.
pub open spec fn document_value(ds: Seq<DocumentPart>) -> Option<Seq<ResponseModel>> {
    document_fold(ds, Seq::empty())
}

} // verus!

verus! {

// ---------------------------------------------------------------------------
// Reading documents back

proof fn lemma_skip_block(b: Seq<TokenModel>, rest: Seq<TokenModel>, st: Seq<(Seq<char>, Seq<char>)>)
    requires
        extension_scan(b, st) is Some,
    ensures
        skip_extensions(b + rest, st) == skip_extensions(rest, extension_scan(b, st)->Some_0),
    decreases b.len(),
{
    if b.len() == 0 {
        assert(b + rest =~= rest);
    } else {
        assert((b + rest).drop_first() =~= b.drop_first() + rest);
        assert((b + rest)[0] == b[0]);
        match b[0] {
            TokenModel::OpenExt(n, ns) => lemma_skip_block(b.drop_first(), rest, st.push((n, ns))),
            TokenModel::CloseExt(_, _) => lemma_skip_block(b.drop_first(), rest, st.drop_last()),
            TokenModel::Text(_) => lemma_skip_block(b.drop_first(), rest, st),
            _ => {},
        }
    }
}

proof fn lemma_scan_concat(x: Seq<TokenModel>, y: Seq<TokenModel>, st: Seq<(Seq<char>, Seq<char>)>)
    requires
        extension_scan(x, st) is Some,
    ensures
        extension_scan(x + y, st) == extension_scan(y, extension_scan(x, st)->Some_0),
    decreases x.len(),
{
    if x.len() == 0 {
        assert(x + y =~= y);
    } else {
        assert((x + y).drop_first() =~= x.drop_first() + y);
        assert((x + y)[0] == x[0]);
        match x[0] {
            TokenModel::OpenExt(n, ns) => lemma_scan_concat(x.drop_first(), y, st.push((n, ns))),
            TokenModel::CloseExt(_, _) => lemma_scan_concat(x.drop_first(), y, st.drop_last()),
            TokenModel::Text(_) => lemma_scan_concat(x.drop_first(), y, st),
            _ => {},
        }
    }
}

proof fn lemma_text_element(name: &str, t: Seq<char>, rest: Seq<TokenModel>)
    ensures
        text_element(text_element_tokens(name, t) + rest, name) == Some((t, rest)),
{
    let s = text_element_tokens(name, t) + rest;
    let after = seq![TokenModel::CloseStd(name@)] + rest;
    assert(s.drop_first() =~= text_tokens(t) + after);
    assert(after.drop_first() =~= rest);
    assert(text_run(after) == (Seq::<char>::empty(), after));
    if t.len() == 0 {
        assert(text_tokens(t) + after =~= after);
    } else {
        let run = text_tokens(t) + after;
        assert(run.drop_first() =~= after);
        assert(t + Seq::<char>::empty() =~= t);
    }
}

/// What a run of extension blocks passes over, read with `stack` open,
/// closes what it opens, and the run stands right before what is left.
pub(crate) proof fn lemma_skipped_block(s: Seq<TokenModel>, st: Seq<(Seq<char>, Seq<char>)>)
    requires
        skip_extensions(s, st) matches Some(a) && a.len() > 0,
    ensures
        ({
            let a = skip_extensions(s, st)->Some_0;
            let k = s.len() - a.len();
            &&& 0 <= k <= s.len()
            &&& s == s.take(k) + a
            &&& extension_scan(s.take(k), st) == Some(Seq::<(Seq<char>, Seq<char>)>::empty())
        }),
    decreases s.len(),
{
    let a = skip_extensions(s, st)->Some_0;
    let t = s.drop_first();
    match s[0] {
        TokenModel::OpenExt(n, ns) => {
            lemma_skipped_block(t, st.push((n, ns)));
        },
        TokenModel::CloseExt(_, _) => {
            lemma_skipped_block(t, st.drop_last());
        },
        TokenModel::Text(_) => {
            lemma_skipped_block(t, st);
        },
        _ => {
            assert(st =~= Seq::<(Seq<char>, Seq<char>)>::empty());
            assert(s.take(0) =~= Seq::<TokenModel>::empty());
            assert(s =~= s.take(0) + a);
        },
    }
    if !(s[0] is OpenStd || s[0] is CloseStd) {
        let k = s.len() - a.len();
        assert(s.take(k).drop_first() =~= t.take(k - 1));
        assert(s.take(k)[0] == s[0]);
        assert(s =~= seq![s[0]] + t);
        assert(s.take(k) =~= seq![s[0]] + t.take(k - 1));
        assert(seq![s[0]] + t.take(k - 1) + a =~= seq![s[0]] + (t.take(k - 1) + a));
        assert(s =~= s.take(k) + a);
    }
}

pub(crate) proof fn lemma_prop(
    c: bool,
    e1: Seq<TokenModel>,
    e2: Seq<TokenModel>,
    e3: Seq<TokenModel>,
    e4: Seq<TokenModel>,
    rest: Seq<TokenModel>,
)
    requires
        extension_block(e1),
        extension_block(e2),
        extension_block(e3),
        extension_block(e4),
    ensures
        prop_element(prop_tokens(c, e1, e2, e3, e4) + rest) == Some((c, rest)),
{
    let s = prop_tokens(c, e1, e2, e3, e4) + rest;
    let end = seq![TokenModel::CloseStd("prop"@)] + rest;
    let d_part = e4 + end;
    let c_part = seq![TokenModel::CloseStd("resourcetype"@)] + d_part;
    let coll = seq![TokenModel::OpenStd("collection"@), TokenModel::CloseStd("collection"@)];
    let b_part = (if c {
        coll
    } else {
        Seq::empty()
    }) + e3 + c_part;
    let a_part = seq![TokenModel::OpenStd("resourcetype"@)] + e2 + b_part;
    assert(s.drop_first() =~= e1 + a_part);
    lemma_skip_block(e1, a_part, Seq::empty());
    assert(a_part.drop_first() =~= e2 + b_part);
    assert(c_part.drop_first() =~= d_part);
    lemma_skip_block(e4, end, Seq::empty());
    assert(end.drop_first() =~= rest);
    if c {
        lemma_skip_block(e2, b_part, Seq::empty());
        assert(b_part.skip(2) =~= e3 + c_part);
        lemma_skip_block(e3, c_part, Seq::empty());
    } else {
        assert(b_part =~= e3 + c_part);
        lemma_scan_concat(e2, e3, Seq::empty());
        assert(e2 + b_part =~= (e2 + e3) + c_part);
        lemma_skip_block(e2 + e3, c_part, Seq::empty());
    }
}

proof fn lemma_location(h: Seq<char>, e1: Seq<TokenModel>, e2: Seq<TokenModel>, rest: Seq<TokenModel>)
    requires
        extension_block(e1),
        extension_block(e2),
    ensures
        location_element(location_tokens(h, e1, e2) + rest) == Some(rest),
{
    let s = location_tokens(h, e1, e2) + rest;
    let after = seq![TokenModel::CloseStd("location"@)] + rest;
    let href_part = text_element_tokens("href", h) + (e2 + after);
    assert(s.drop_first() =~= e1 + href_part);
    lemma_skip_block(e1, href_part, Seq::empty());
    lemma_text_element("href", h, e2 + after);
    lemma_skip_block(e2, after, Seq::empty());
    assert(after.drop_first() =~= rest);
}

proof fn lemma_names()
    ensures
        "prop"@ != "status"@,
        "prop"@ != "responsedescription"@,
        "status"@ != "responsedescription"@,
        "href"@ != "propstat"@,
        "href"@ != "responsedescription"@,
        "href"@ != "location"@,
        "propstat"@ != "responsedescription"@,
        "propstat"@ != "location"@,
        "responsedescription"@ != "location"@,
        "response"@ != "responsedescription"@,
{
    reveal_strlit("prop");
    reveal_strlit("status");
    reveal_strlit("responsedescription");
    reveal_strlit("href");
    reveal_strlit("propstat");
    reveal_strlit("location");
    reveal_strlit("response");
    assert("prop"@.len() != "status"@.len());
    assert("prop"@.len() != "responsedescription"@.len());
    assert("status"@.len() != "responsedescription"@.len());
    assert("href"@.len() != "propstat"@.len());
    assert("href"@.len() != "responsedescription"@.len());
    assert("href"@.len() != "location"@.len());
    assert("propstat"@.len() != "responsedescription"@.len());
    assert("propstat"@[0] != "location"@[0]);
    assert("responsedescription"@.len() != "location"@.len());
    assert("response"@.len() != "responsedescription"@.len());
}

proof fn lemma_propstat_body(
    e: Seq<TokenModel>,
    ps: Seq<PropstatPart>,
    rest: Seq<TokenModel>,
    acc: (Option<bool>, Option<Seq<char>>),
)
    requires
        extension_block(e),
        propstat_parts_wf(ps),
    ensures
        propstat_body(
            e + propstat_parts_tokens(ps) + seq![TokenModel::CloseStd("propstat"@)] + rest,
            acc.0,
            acc.1,
        ) == match propstat_fold(ps, acc) {
            Some((Some(c), Some(t))) => Some((c, t, rest)),
            _ => None,
        },
    decreases ps.len(),
{
    let close = seq![TokenModel::CloseStd("propstat"@)];
    let tail = propstat_parts_tokens(ps) + close + rest;
    let s = e + propstat_parts_tokens(ps) + close + rest;
    assert(s =~= e + tail);
    lemma_skip_block(e, tail, Seq::empty());
    if ps.len() == 0 {
        assert(tail =~= close + rest);
        assert(tail.drop_first() =~= rest);
    } else {
        let p = ps[0];
        let ps2 = ps.drop_first();
        let more = propstat_parts_tokens(ps2) + close + rest;
        assert(tail =~= propstat_part_tokens(p) + more);
        assert(Seq::<TokenModel>::empty() + propstat_parts_tokens(ps2) + close + rest =~= more);
        assert(propstat_parts_wf(ps2)) by {
            assert forall|i: int| 0 <= i < ps2.len() implies propstat_part_wf(#[trigger] ps2[i]) by {
                assert(ps2[i] == ps[i + 1]);
            }
        }
        lemma_names();
        match p {
            PropstatPart::Prop { collection: c, before_type, in_type, after_collection, after_type } => {
                assert(propstat_part_wf(ps[0]));
                lemma_prop(c, before_type, in_type, after_collection, after_type, more);
                if acc.0 is None {
                    lemma_propstat_body(Seq::empty(), ps2, rest, (Some(c), acc.1));
                }
            },
            PropstatPart::Status(t) => {
                lemma_text_element("status", t, more);
                if acc.1 is None {
                    lemma_propstat_body(Seq::empty(), ps2, rest, (acc.0, Some(t)));
                }
            },
            PropstatPart::Description(t) => {
                lemma_text_element("responsedescription", t, more);
                lemma_propstat_body(Seq::empty(), ps2, rest, acc);
            },
            PropstatPart::Extension(b) => {
                assert(propstat_part_wf(ps[0]));
                lemma_scan_concat(e, b, Seq::empty());
                assert(e + b + propstat_parts_tokens(ps2) + close + rest =~= s);
                lemma_propstat_body(e + b, ps2, rest, acc);
            },
        }
    }
}

} // verus!

verus! {

proof fn lemma_response_body(
    e: Seq<TokenModel>,
    rs: Seq<ResponsePart>,
    rest: Seq<TokenModel>,
    acc: (Option<Seq<char>>, Option<(bool, Seq<char>)>),
)
    requires
        extension_block(e),
        response_parts_wf(rs),
    ensures
        response_body(
            e + response_parts_tokens(rs) + seq![TokenModel::CloseStd("response"@)] + rest,
            acc.0,
            acc.1,
        ) == match response_fold(rs, acc) {
            Some((Some(h), Some((c, t)))) => Some(
                (ResponseModel { href: h, is_collection: c, status: t }, rest),
            ),
            _ => None,
        },
    decreases rs.len(),
{
    let close = seq![TokenModel::CloseStd("response"@)];
    let tail = response_parts_tokens(rs) + close + rest;
    let s = e + response_parts_tokens(rs) + close + rest;
    assert(s =~= e + tail);
    lemma_skip_block(e, tail, Seq::empty());
    if rs.len() == 0 {
        assert(tail =~= close + rest);
        assert(tail.drop_first() =~= rest);
    } else {
        let p = rs[0];
        let rs2 = rs.drop_first();
        let more = response_parts_tokens(rs2) + close + rest;
        assert(tail =~= response_part_tokens(p) + more);
        assert(Seq::<TokenModel>::empty() + response_parts_tokens(rs2) + close + rest =~= more);
        assert(response_parts_wf(rs2)) by {
            assert forall|i: int| 0 <= i < rs2.len() implies response_part_wf(#[trigger] rs2[i]) by {
                assert(rs2[i] == rs[i + 1]);
            }
        }
        assert(response_part_wf(rs[0]));
        lemma_names();
        match p {
            ResponsePart::Href(h) => {
                lemma_text_element("href", h, more);
                if acc.0 is None {
                    lemma_response_body(Seq::empty(), rs2, rest, (Some(h), acc.1));
                }
            },
            ResponsePart::Propstat(ps) => {
                let pclose = seq![TokenModel::CloseStd("propstat"@)];
                assert((propstat_tokens(ps) + more).drop_first() =~= Seq::<TokenModel>::empty()
                    + propstat_parts_tokens(ps) + pclose + more);
                lemma_propstat_body(Seq::empty(), ps, more, (None, None));
                match propstat_value(ps) {
                    Some(v) => {
                        if acc.1 is None {
                            lemma_response_body(Seq::empty(), rs2, rest, (acc.0, Some(v)));
                        }
                    },
                    None => {},
                }
            },
            ResponsePart::Description(t) => {
                lemma_text_element("responsedescription", t, more);
                lemma_response_body(Seq::empty(), rs2, rest, acc);
            },
            ResponsePart::Location { href: h, before, after } => {
                lemma_location(h, before, after, more);
                lemma_response_body(Seq::empty(), rs2, rest, acc);
            },
            ResponsePart::Extension(b) => {
                lemma_scan_concat(e, b, Seq::empty());
                assert(e + b + response_parts_tokens(rs2) + close + rest =~= s);
                lemma_response_body(e + b, rs2, rest, acc);
            },
        }
    }
}

proof fn lemma_multistatus_body(e: Seq<TokenModel>, ds: Seq<DocumentPart>, acc: Seq<ResponseModel>)
    requires
        extension_block(e),
        document_wf(ds),
    ensures
        multistatus_body(
            e + document_parts_tokens(ds) + seq![TokenModel::CloseStd("multistatus"@)],
            acc,
        ) == document_fold(ds, acc),
    decreases ds.len(),
{
    let close = seq![TokenModel::CloseStd("multistatus"@)];
    let tail = document_parts_tokens(ds) + close;
    let s = e + document_parts_tokens(ds) + close;
    assert(s =~= e + tail);
    lemma_skip_block(e, tail, Seq::empty());
    if ds.len() == 0 {
        assert(tail =~= close);
    } else {
        let p = ds[0];
        let ds2 = ds.drop_first();
        let more = document_parts_tokens(ds2) + close;
        assert(tail =~= document_part_tokens(p) + more);
        assert(Seq::<TokenModel>::empty() + document_parts_tokens(ds2) + close =~= more);
        assert(document_wf(ds2)) by {
            assert forall|i: int| 0 <= i < ds2.len() implies document_part_wf(#[trigger] ds2[i]) by {
                assert(ds2[i] == ds[i + 1]);
            }
        }
        assert(document_part_wf(ds[0]));
        lemma_names();
        match p {
            DocumentPart::Response(rs) => {
                let rclose = seq![TokenModel::CloseStd("response"@)];
                assert((response_tokens(rs) + more).drop_first() =~= Seq::<TokenModel>::empty()
                    + response_parts_tokens(rs) + rclose + more);
                lemma_response_body(Seq::empty(), rs, more, (None, None));
                match response_value(rs) {
                    Some(r) => {
                        lemma_multistatus_body(Seq::empty(), ds2, acc.push(r));
                    },
                    None => {},
                }
            },
            DocumentPart::Description(t) => {
                lemma_text_element("responsedescription", t, more);
                lemma_multistatus_body(Seq::empty(), ds2, acc);
            },
            DocumentPart::Extension(b) => {
                lemma_scan_concat(e, b, Seq::empty());
                assert(e + b + document_parts_tokens(ds2) + close =~= s);
                lemma_multistatus_body(e + b, ds2, acc);
            },
        }
    }
}

/// A well-formed document reads back as the responses it was written from,
/// in order, where each of them is valid; otherwise it does not parse.
pub proof fn lemma_document_reads_back(ds: Seq<DocumentPart>)
    requires
        document_wf(ds),
    ensures
        multistatus(document_tokens(ds)) == document_value(ds),
        parse_model(document_tokens(ds)) == match document_value(ds) {
            None => Err(FailureModel::Parse),
            Some(rs) => classify(rs),
        },
{
    let s = document_tokens(ds);
    assert(s.drop_first() =~= Seq::<TokenModel>::empty() + document_parts_tokens(ds) + seq![
        TokenModel::CloseStd("multistatus"@),
    ]);
    lemma_multistatus_body(Seq::empty(), ds, Seq::empty());
}

} // verus!
