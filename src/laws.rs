//! What holds of the parser on every well-formed document.
use vstd::prelude::*;
use crate::document::{
    extension_block, lemma_skipped_block, lemma_prop, propstat_part_wf, prop_tokens, document_fold, document_tokens, document_value, document_wf, lemma_document_reads_back,
    propstat_fold, propstat_parts_wf, propstat_step, propstat_value, response_fold,
    response_part_wf, response_parts_wf, response_step, response_value, DocumentPart,
    PropstatPart, ResponsePart,
};
use crate::grammar::{
    is_close, is_open, prop_element, propstat_body, skip_extensions, classify, parse_model, status_is_ok, FailureModel, ListingModel, ResponseModel};
use crate::parse::lemma_classify_first_failure;
use crate::token::TokenModel;

verus! {

/// `s` with the items at `k` and `k + 1` exchanged.
pub open spec fn swap<A>(s: Seq<A>, k: int) -> Seq<A> {
    s.update(k, s[k + 1]).update(k + 1, s[k])
}

proof fn lemma_response_steps_commute(
    acc: (Option<Seq<char>>, Option<(bool, Seq<char>)>),
    x: ResponsePart,
    y: ResponsePart,
)
    ensures
        (match response_step(acc, x) {
            None => None,
            Some(a) => response_step(a, y),
        }) == (match response_step(acc, y) {
            None => None,
            Some(a) => response_step(a, x),
        }),
{
}

proof fn lemma_propstat_steps_commute(
    acc: (Option<bool>, Option<Seq<char>>),
    x: PropstatPart,
    y: PropstatPart,
)
    ensures
        (match propstat_step(acc, x) {
            None => None,
            Some(a) => propstat_step(a, y),
        }) == (match propstat_step(acc, y) {
            None => None,
            Some(a) => propstat_step(a, x),
        }),
{
}

proof fn lemma_response_fold_two(rs: Seq<ResponsePart>, acc: (Option<Seq<char>>, Option<(bool, Seq<char>)>))
    requires
        rs.len() >= 2,
    ensures
        response_fold(rs, acc) == match response_step(acc, rs[0]) {
            None => None,
            Some(a) => match response_step(a, rs[1]) {
                None => None,
                Some(b) => response_fold(rs.drop_first().drop_first(), b),
            },
        },
{
    assert(rs.drop_first()[0] == rs[1]);
    reveal_with_fuel(response_fold, 2);
}

proof fn lemma_propstat_fold_two(ps: Seq<PropstatPart>, acc: (Option<bool>, Option<Seq<char>>))
    requires
        ps.len() >= 2,
    ensures
        propstat_fold(ps, acc) == match propstat_step(acc, ps[0]) {
            None => None,
            Some(a) => match propstat_step(a, ps[1]) {
                None => None,
                Some(b) => propstat_fold(ps.drop_first().drop_first(), b),
            },
        },
{
    assert(ps.drop_first()[0] == ps[1]);
    reveal_with_fuel(propstat_fold, 2);
}

proof fn lemma_response_fold_swap(
    rs: Seq<ResponsePart>,
    k: int,
    acc: (Option<Seq<char>>, Option<(bool, Seq<char>)>),
)
    requires
        0 <= k,
        k + 1 < rs.len(),
    ensures
        response_fold(swap(rs, k), acc) == response_fold(rs, acc),
    decreases k,
{
    let t = swap(rs, k);
    if k == 0 {
        lemma_response_steps_commute(acc, rs[0], rs[1]);
        lemma_response_fold_two(rs, acc);
        lemma_response_fold_two(t, acc);
        assert(t.drop_first().drop_first() =~= rs.drop_first().drop_first());
        assert(t.drop_first()[0] == rs[0]);
        assert(rs.drop_first()[0] == rs[1]);
    } else {
        assert(t.drop_first() =~= swap(rs.drop_first(), k - 1));
        match response_step(acc, rs[0]) {
            None => {},
            Some(a) => lemma_response_fold_swap(rs.drop_first(), k - 1, a),
        }
    }
}

proof fn lemma_propstat_fold_swap(ps: Seq<PropstatPart>, k: int, acc: (Option<bool>, Option<Seq<char>>))
    requires
        0 <= k,
        k + 1 < ps.len(),
    ensures
        propstat_fold(swap(ps, k), acc) == propstat_fold(ps, acc),
    decreases k,
{
    let t = swap(ps, k);
    if k == 0 {
        lemma_propstat_steps_commute(acc, ps[0], ps[1]);
        lemma_propstat_fold_two(ps, acc);
        lemma_propstat_fold_two(t, acc);
        assert(t.drop_first().drop_first() =~= ps.drop_first().drop_first());
        assert(t.drop_first()[0] == ps[0]);
        assert(ps.drop_first()[0] == ps[1]);
    } else {
        assert(t.drop_first() =~= swap(ps.drop_first(), k - 1));
        match propstat_step(acc, ps[0]) {
            None => {},
            Some(a) => lemma_propstat_fold_swap(ps.drop_first(), k - 1, a),
        }
    }
}

/// Replacing a response by one with the same value keeps the document's.
proof fn lemma_document_fold_update(
    ds: Seq<DocumentPart>,
    r: int,
    rs2: Seq<ResponsePart>,
    acc: Seq<ResponseModel>,
)
    requires
        0 <= r < ds.len(),
        ds[r] matches DocumentPart::Response(rs1) && response_value(rs1) == response_value(rs2),
    ensures
        document_fold(ds.update(r, DocumentPart::Response(rs2)), acc) == document_fold(ds, acc),
    decreases r,
{
    let u = ds.update(r, DocumentPart::Response(rs2));
    if r == 0 {
        assert(u.drop_first() =~= ds.drop_first());
    } else {
        assert(u.drop_first() =~= ds.drop_first().update(r - 1, DocumentPart::Response(rs2)));
        assert(u[0] == ds[0]);
        match ds[0] {
            DocumentPart::Response(rs0) => match response_value(rs0) {
                None => {},
                Some(x) => lemma_document_fold_update(ds.drop_first(), r - 1, rs2, acc.push(x)),
            },
            _ => lemma_document_fold_update(ds.drop_first(), r - 1, rs2, acc),
        }
    }
}

/// Replacing a propstat by one with the same value keeps the response's.
proof fn lemma_response_fold_update(
    rs: Seq<ResponsePart>,
    p: int,
    ps2: Seq<PropstatPart>,
    acc: (Option<Seq<char>>, Option<(bool, Seq<char>)>),
)
    requires
        0 <= p < rs.len(),
        rs[p] matches ResponsePart::Propstat(ps1) && propstat_value(ps1) == propstat_value(ps2),
    ensures
        response_fold(rs.update(p, ResponsePart::Propstat(ps2)), acc) == response_fold(rs, acc),
    decreases p,
{
    let u = rs.update(p, ResponsePart::Propstat(ps2));
    if p == 0 {
        assert(u.drop_first() =~= rs.drop_first());
    } else {
        assert(u.drop_first() =~= rs.drop_first().update(p - 1, ResponsePart::Propstat(ps2)));
        assert(u[0] == rs[0]);
        match response_step(acc, rs[0]) {
            None => {},
            Some(a) => lemma_response_fold_update(rs.drop_first(), p - 1, ps2, a),
        }
    }
}

proof fn lemma_response_move_front(
    rs: Seq<ResponsePart>,
    j: int,
    acc: (Option<Seq<char>>, Option<(bool, Seq<char>)>),
)
    requires
        0 <= j < rs.len(),
    ensures
        response_fold(seq![rs[j]] + rs.remove(j), acc) == response_fold(rs, acc),
    decreases j,
{
    if j == 0 {
        assert(seq![rs[0]] + rs.remove(0) =~= rs);
    } else {
        let t = swap(rs, j - 1);
        lemma_response_move_front(t, j - 1, acc);
        assert(t.remove(j - 1) =~= rs.remove(j));
        lemma_response_fold_swap(rs, j - 1, acc);
    }
}

proof fn lemma_propstat_move_front(ps: Seq<PropstatPart>, j: int, acc: (Option<bool>, Option<Seq<char>>))
    requires
        0 <= j < ps.len(),
    ensures
        propstat_fold(seq![ps[j]] + ps.remove(j), acc) == propstat_fold(ps, acc),
    decreases j,
{
    if j == 0 {
        assert(seq![ps[0]] + ps.remove(0) =~= ps);
    } else {
        let t = swap(ps, j - 1);
        lemma_propstat_move_front(t, j - 1, acc);
        assert(t.remove(j - 1) =~= ps.remove(j));
        lemma_propstat_fold_swap(ps, j - 1, acc);
    }
}

/// Where two sequences hold the same items, an item of the first stands
/// somewhere in the second, and the rests hold the same items again.
proof fn lemma_same_items_first<A>(s1: Seq<A>, s2: Seq<A>) -> (j: int)
    requires
        s1.to_multiset() == s2.to_multiset(),
        s1.len() > 0,
    ensures
        0 <= j < s2.len(),
        s2[j] == s1[0],
        s1.drop_first().to_multiset() == s2.remove(j).to_multiset(),
{
    s1.to_multiset_ensures();
    s2.to_multiset_ensures();
    assert(s1.contains(s1[0]));
    assert(s1.to_multiset().count(s1[0]) > 0);
    assert(s2.to_multiset().count(s1[0]) > 0);
    assert(s2.contains(s1[0]));
    let j = choose|j: int| 0 <= j < s2.len() && s2[j] == s1[0];
    assert(s1.remove(0) =~= s1.drop_first());
    assert(s1.remove(0).to_multiset() =~= s1.to_multiset().remove(s1[0]));
    assert(s2.remove(j).to_multiset() =~= s2.to_multiset().remove(s2[j]));
    j
}

proof fn lemma_response_fold_permutation(
    rs1: Seq<ResponsePart>,
    rs2: Seq<ResponsePart>,
    acc: (Option<Seq<char>>, Option<(bool, Seq<char>)>),
)
    requires
        rs1.to_multiset() == rs2.to_multiset(),
    ensures
        response_fold(rs1, acc) == response_fold(rs2, acc),
    decreases rs1.len(),
{
    rs1.to_multiset_ensures();
    rs2.to_multiset_ensures();
    if rs1.len() > 0 {
        let j = lemma_same_items_first(rs1, rs2);
        let front = seq![rs2[j]] + rs2.remove(j);
        lemma_response_move_front(rs2, j, acc);
        assert(front.drop_first() =~= rs2.remove(j));
        match response_step(acc, rs1[0]) {
            None => {},
            Some(a) => lemma_response_fold_permutation(rs1.drop_first(), rs2.remove(j), a),
        }
    }
}

proof fn lemma_propstat_fold_permutation(
    ps1: Seq<PropstatPart>,
    ps2: Seq<PropstatPart>,
    acc: (Option<bool>, Option<Seq<char>>),
)
    requires
        ps1.to_multiset() == ps2.to_multiset(),
    ensures
        propstat_fold(ps1, acc) == propstat_fold(ps2, acc),
    decreases ps1.len(),
{
    ps1.to_multiset_ensures();
    ps2.to_multiset_ensures();
    if ps1.len() > 0 {
        let j = lemma_same_items_first(ps1, ps2);
        let front = seq![ps2[j]] + ps2.remove(j);
        lemma_propstat_move_front(ps2, j, acc);
        assert(front.drop_first() =~= ps2.remove(j));
        match propstat_step(acc, ps1[0]) {
            None => {},
            Some(a) => lemma_propstat_fold_permutation(ps1.drop_first(), ps2.remove(j), a),
        }
    }
}

/// Every item of `s2` is an item of `s1` where they hold the same items.
proof fn lemma_same_items_member<A>(s1: Seq<A>, s2: Seq<A>, i: int) -> (k: int)
    requires
        s1.to_multiset() == s2.to_multiset(),
        0 <= i < s2.len(),
    ensures
        0 <= k < s1.len(),
        s1[k] == s2[i],
{
    s1.to_multiset_ensures();
    s2.to_multiset_ensures();
    assert(s2.contains(s2[i]));
    assert(s2.to_multiset().count(s2[i]) > 0);
    assert(s1.to_multiset().count(s2[i]) > 0);
    assert(s1.contains(s2[i]));
    choose|k: int| 0 <= k < s1.len() && s1[k] == s2[i]
}

/// Putting the children of one `response` in any other order does not
/// change what the parser makes of a document.
pub proof fn lemma_response_children_any_order(ds: Seq<DocumentPart>, r: int, reordered: Seq<ResponsePart>)
    requires
        document_wf(ds),
        0 <= r < ds.len(),
        ds[r] is Response,
        reordered.to_multiset() == ds[r]->Response_0.to_multiset(),
    ensures
        parse_model(document_tokens(ds)) == parse_model(
            document_tokens(ds.update(r, DocumentPart::Response(reordered))),
        ),
{
    let rs = ds[r]->Response_0;
    let u = ds.update(r, DocumentPart::Response(reordered));
    assert(crate::document::document_part_wf(ds[r]));
    assert(response_parts_wf(reordered)) by {
        assert forall|i: int| 0 <= i < reordered.len() implies response_part_wf(
            #[trigger] reordered[i],
        ) by {
            let k = lemma_same_items_member(rs, reordered, i);
            assert(response_part_wf(rs[k]));
        }
    }
    assert(document_wf(u)) by {
        assert forall|i: int| 0 <= i < u.len() implies crate::document::document_part_wf(
            #[trigger] u[i],
        ) by {
            if i != r {
                assert(crate::document::document_part_wf(ds[i]));
            }
        }
    }
    lemma_response_fold_permutation(rs, reordered, (None, None));
    lemma_document_fold_update(ds, r, reordered, Seq::empty());
    lemma_document_reads_back(ds);
    lemma_document_reads_back(u);
}

/// Putting the children of one `propstat` in any other order does not
/// change what the parser makes of a document.
pub proof fn lemma_propstat_children_any_order(
    ds: Seq<DocumentPart>,
    r: int,
    p: int,
    reordered: Seq<PropstatPart>,
)
    requires
        document_wf(ds),
        0 <= r < ds.len(),
        ds[r] is Response,
        0 <= p < ds[r]->Response_0.len(),
        ds[r]->Response_0[p] is Propstat,
        reordered.to_multiset() == ds[r]->Response_0[p]->Propstat_0.to_multiset(),
    ensures
        parse_model(document_tokens(ds)) == parse_model(
            document_tokens(
                ds.update(
                    r,
                    DocumentPart::Response(
                        ds[r]->Response_0.update(p, ResponsePart::Propstat(reordered)),
                    ),
                ),
            ),
        ),
{
    let rs = ds[r]->Response_0;
    let ps = rs[p]->Propstat_0;
    let rs2 = rs.update(p, ResponsePart::Propstat(reordered));
    let u = ds.update(r, DocumentPart::Response(rs2));
    assert(crate::document::document_part_wf(ds[r]));
    assert(response_part_wf(rs[p]));
    assert(propstat_parts_wf(reordered)) by {
        assert forall|i: int| 0 <= i < reordered.len() implies propstat_part_wf(
            #[trigger] reordered[i],
        ) by {
            let k = lemma_same_items_member(ps, reordered, i);
            assert(propstat_part_wf(ps[k]));
        }
    }
    assert(response_parts_wf(rs2)) by {
        assert forall|i: int| 0 <= i < rs2.len() implies response_part_wf(#[trigger] rs2[i]) by {
            if i != p {
                assert(response_part_wf(rs[i]));
            }
        }
    }
    assert(document_wf(u)) by {
        assert forall|i: int| 0 <= i < u.len() implies crate::document::document_part_wf(
            #[trigger] u[i],
        ) by {
            if i != r {
                assert(crate::document::document_part_wf(ds[i]));
            }
        }
    }
    lemma_propstat_fold_permutation(ps, reordered, (None, None));
    lemma_response_fold_update(rs, p, reordered, (None, None));
    lemma_document_fold_update(ds, r, rs2, Seq::empty());
    lemma_document_reads_back(ds);
    lemma_document_reads_back(u);
}

} // verus!

verus! {

// ---------------------------------------------------------------------------
// Extension blocks

pub open spec fn propstat_part_without_extensions(p: PropstatPart) -> PropstatPart {
    match p {
        PropstatPart::Prop { collection, .. } => PropstatPart::Prop {
            collection,
            before_type: Seq::empty(),
            in_type: Seq::empty(),
            after_collection: Seq::empty(),
            after_type: Seq::empty(),
        },
        _ => p,
    }
}

/// The children of a `propstat` without extension blocks, at any depth.
pub open spec fn propstat_without_extensions(ps: Seq<PropstatPart>) -> Seq<PropstatPart>
    decreases ps.len(),
{
    if ps.len() == 0 {
        ps
    } else if ps[0] is Extension {
        propstat_without_extensions(ps.drop_first())
    } else {
        seq![propstat_part_without_extensions(ps[0])] + propstat_without_extensions(ps.drop_first())
    }
}

pub open spec fn response_part_without_extensions(p: ResponsePart) -> ResponsePart {
    match p {
        ResponsePart::Propstat(ps) => ResponsePart::Propstat(propstat_without_extensions(ps)),
        ResponsePart::Location { href, .. } => ResponsePart::Location {
            href,
            before: Seq::empty(),
            after: Seq::empty(),
        },
        _ => p,
    }
}

/// The children of a `response` without extension blocks, at any depth.
pub open spec fn response_without_extensions(rs: Seq<ResponsePart>) -> Seq<ResponsePart>
    decreases rs.len(),
{
    if rs.len() == 0 {
        rs
    } else if rs[0] is Extension {
        response_without_extensions(rs.drop_first())
    } else {
        seq![response_part_without_extensions(rs[0])] + response_without_extensions(rs.drop_first())
    }
}

pub open spec fn document_part_without_extensions(p: DocumentPart) -> DocumentPart {
    match p {
        DocumentPart::Response(rs) => DocumentPart::Response(response_without_extensions(rs)),
        _ => p,
    }
}

/// A document without any of its extension blocks.
pub open spec fn document_without_extensions(ds: Seq<DocumentPart>) -> Seq<DocumentPart>
    decreases ds.len(),
{
    if ds.len() == 0 {
        ds
    } else if ds[0] is Extension {
        document_without_extensions(ds.drop_first())
    } else {
        seq![document_part_without_extensions(ds[0])] + document_without_extensions(ds.drop_first())
    }
}

proof fn lemma_propstat_strip(ps: Seq<PropstatPart>, acc: (Option<bool>, Option<Seq<char>>))
    ensures
        propstat_fold(propstat_without_extensions(ps), acc) == propstat_fold(ps, acc),
        propstat_parts_wf(propstat_without_extensions(ps)),
    decreases ps.len(),
{
    if ps.len() > 0 {
        let rest = propstat_without_extensions(ps.drop_first());
        match propstat_step(acc, ps[0]) {
            None => lemma_propstat_strip(ps.drop_first(), acc),
            Some(a) => lemma_propstat_strip(ps.drop_first(), a),
        }
        lemma_propstat_strip(ps.drop_first(), acc);
        if !(ps[0] is Extension) {
            let s = seq![propstat_part_without_extensions(ps[0])] + rest;
            assert(s.drop_first() =~= rest);
            assert(extension_block(Seq::empty()));
            assert forall|i: int| 0 <= i < s.len() implies propstat_part_wf(#[trigger] s[i]) by {
                if i > 0 {
                    assert(s[i] == rest[i - 1]);
                }
            }
        }
    }
}

proof fn lemma_response_strip(rs: Seq<ResponsePart>, acc: (Option<Seq<char>>, Option<(bool, Seq<char>)>))
    ensures
        response_fold(response_without_extensions(rs), acc) == response_fold(rs, acc),
        response_parts_wf(response_without_extensions(rs)),
    decreases rs.len(),
{
    if rs.len() > 0 {
        let rest = response_without_extensions(rs.drop_first());
        let x = response_part_without_extensions(rs[0]);
        if let ResponsePart::Propstat(ps) = rs[0] {
            lemma_propstat_strip(ps, (None, None));
        }
        assert(response_step(acc, x) == response_step(acc, rs[0]));
        match response_step(acc, rs[0]) {
            None => {},
            Some(a) => lemma_response_strip(rs.drop_first(), a),
        }
        lemma_response_strip(rs.drop_first(), acc);
        assert(extension_block(Seq::empty()));
        if !(rs[0] is Extension) {
            let s = seq![x] + rest;
            assert(s.drop_first() =~= rest);
            assert forall|i: int| 0 <= i < s.len() implies response_part_wf(#[trigger] s[i]) by {
                if i > 0 {
                    assert(s[i] == rest[i - 1]);
                }
            }
        }
    }
}

proof fn lemma_document_strip(ds: Seq<DocumentPart>, acc: Seq<ResponseModel>)
    ensures
        document_fold(document_without_extensions(ds), acc) == document_fold(ds, acc),
        document_wf(document_without_extensions(ds)),
    decreases ds.len(),
{
    if ds.len() > 0 {
        let rest = document_without_extensions(ds.drop_first());
        let x = document_part_without_extensions(ds[0]);
        lemma_document_strip(ds.drop_first(), acc);
        match ds[0] {
            DocumentPart::Response(rs) => {
                lemma_response_strip(rs, (None, None));
                match response_value(rs) {
                    None => {},
                    Some(r) => lemma_document_strip(ds.drop_first(), acc.push(r)),
                }
            },
            _ => {},
        }
        if !(ds[0] is Extension) {
            let s = seq![x] + rest;
            assert(s.drop_first() =~= rest);
            assert forall|i: int| 0 <= i < s.len() implies crate::document::document_part_wf(
                #[trigger] s[i],
            ) by {
                if i > 0 {
                    assert(s[i] == rest[i - 1]);
                }
            }
        }
    }
}

/// Well-nested extension elements, wherever they stand among the children
/// of `multistatus`, `response` and `propstat`, do not change what the
/// parser makes of a document: it reads as the document without them.
pub proof fn lemma_extensions_ignored(ds: Seq<DocumentPart>)
    requires
        document_wf(ds),
    ensures
        parse_model(document_tokens(ds)) == parse_model(
            document_tokens(document_without_extensions(ds)),
        ),
{
    lemma_document_strip(ds, Seq::empty());
    lemma_document_reads_back(ds);
    lemma_document_reads_back(document_without_extensions(ds));
}

} // verus!

verus! {

// ---------------------------------------------------------------------------
// Duplicates

proof fn lemma_href_after_href(rs: Seq<ResponsePart>, acc: (Option<Seq<char>>, Option<(bool, Seq<char>)>), j: int)
    requires
        acc.0 is Some,
        0 <= j < rs.len(),
        rs[j] is Href,
    ensures
        response_fold(rs, acc) is None,
    decreases j,
{
    if j > 0 {
        match response_step(acc, rs[0]) {
            None => {},
            Some(a) => lemma_href_after_href(rs.drop_first(), a, j - 1),
        }
    }
}

proof fn lemma_two_hrefs(rs: Seq<ResponsePart>, acc: (Option<Seq<char>>, Option<(bool, Seq<char>)>), i: int, j: int)
    requires
        0 <= i < j < rs.len(),
        rs[i] is Href,
        rs[j] is Href,
    ensures
        response_fold(rs, acc) is None,
    decreases i,
{
    match response_step(acc, rs[0]) {
        None => {},
        Some(a) => {
            if i == 0 {
                lemma_href_after_href(rs.drop_first(), a, j - 1);
            } else {
                lemma_two_hrefs(rs.drop_first(), a, i - 1, j - 1);
            }
        },
    }
}

proof fn lemma_twice_in_propstat_after(ps: Seq<PropstatPart>, acc: (Option<bool>, Option<Seq<char>>), j: int)
    requires
        0 <= j < ps.len(),
        (ps[j] is Prop && acc.0 is Some) || (ps[j] is Status && acc.1 is Some),
    ensures
        propstat_fold(ps, acc) is None,
    decreases j,
{
    if j > 0 {
        match propstat_step(acc, ps[0]) {
            None => {},
            Some(a) => lemma_twice_in_propstat_after(ps.drop_first(), a, j - 1),
        }
    }
}

proof fn lemma_twice_in_propstat(ps: Seq<PropstatPart>, acc: (Option<bool>, Option<Seq<char>>), i: int, j: int)
    requires
        0 <= i < j < ps.len(),
        (ps[i] is Prop && ps[j] is Prop) || (ps[i] is Status && ps[j] is Status),
    ensures
        propstat_fold(ps, acc) is None,
    decreases i,
{
    match propstat_step(acc, ps[0]) {
        None => {},
        Some(a) => {
            if i == 0 {
                lemma_twice_in_propstat_after(ps.drop_first(), a, j - 1);
            } else {
                lemma_twice_in_propstat(ps.drop_first(), a, i - 1, j - 1);
            }
        },
    }
}

proof fn lemma_invalid_propstat(rs: Seq<ResponsePart>, acc: (Option<Seq<char>>, Option<(bool, Seq<char>)>), p: int)
    requires
        0 <= p < rs.len(),
        rs[p] matches ResponsePart::Propstat(ps) && propstat_value(ps) is None,
    ensures
        response_fold(rs, acc) is None,
    decreases p,
{
    if p > 0 {
        match response_step(acc, rs[0]) {
            None => {},
            Some(a) => lemma_invalid_propstat(rs.drop_first(), a, p - 1),
        }
    }
}

proof fn lemma_invalid_response(ds: Seq<DocumentPart>, acc: Seq<ResponseModel>, r: int)
    requires
        0 <= r < ds.len(),
        ds[r] matches DocumentPart::Response(rs) && response_value(rs) is None,
    ensures
        document_fold(ds, acc) is None,
    decreases r,
{
    if r > 0 {
        match ds[0] {
            DocumentPart::Response(rs0) => match response_value(rs0) {
                None => {},
                Some(x) => lemma_invalid_response(ds.drop_first(), acc.push(x), r - 1),
            },
            _ => lemma_invalid_response(ds.drop_first(), acc, r - 1),
        }
    }
}

/// Two `href` children in one `response` make a document unparseable.
pub proof fn lemma_duplicate_href_refused(ds: Seq<DocumentPart>, r: int, i: int, j: int)
    requires
        document_wf(ds),
        0 <= r < ds.len(),
        ds[r] is Response,
        0 <= i < j < ds[r]->Response_0.len(),
        ds[r]->Response_0[i] is Href,
        ds[r]->Response_0[j] is Href,
    ensures
        parse_model(document_tokens(ds)) == Err::<ListingModel, FailureModel>(FailureModel::Parse),
{
    lemma_two_hrefs(ds[r]->Response_0, (None, None), i, j);
    lemma_invalid_response(ds, Seq::empty(), r);
    lemma_document_reads_back(ds);
}

/// Two `prop` children, or two `status` children, in one `propstat` make a
/// document unparseable.
pub proof fn lemma_duplicate_in_propstat_refused(ds: Seq<DocumentPart>, r: int, p: int, i: int, j: int)
    requires
        document_wf(ds),
        0 <= r < ds.len(),
        ds[r] is Response,
        0 <= p < ds[r]->Response_0.len(),
        ds[r]->Response_0[p] is Propstat,
        0 <= i < j < ds[r]->Response_0[p]->Propstat_0.len(),
        ({
            let ps = ds[r]->Response_0[p]->Propstat_0;
            (ps[i] is Prop && ps[j] is Prop) || (ps[i] is Status && ps[j] is Status)
        }),
    ensures
        parse_model(document_tokens(ds)) == Err::<ListingModel, FailureModel>(FailureModel::Parse),
{
    lemma_twice_in_propstat(ds[r]->Response_0[p]->Propstat_0, (None, None), i, j);
    lemma_invalid_propstat(ds[r]->Response_0, (None, None), p);
    lemma_invalid_response(ds, Seq::empty(), r);
    lemma_document_reads_back(ds);
}

/// A `prop` element holds exactly one `resourcetype`, which holds at most
/// one `collection`, with nothing but extension blocks around them: the
/// recognizer accepts exactly those shapes, so a second `resourcetype` or
/// `collection`, or another standard child, is refused, and with it the
/// enclosing `propstat`.
#[verifier::rlimit(60)]
pub proof fn lemma_prop_shape(
    s: Seq<TokenModel>,
    c: bool,
    e1: Seq<TokenModel>,
    e2: Seq<TokenModel>,
    e3: Seq<TokenModel>,
    e4: Seq<TokenModel>,
    rest: Seq<TokenModel>,
    st: Option<Seq<char>>,
)
    requires
        extension_block(e1),
        extension_block(e2),
        extension_block(e3),
        extension_block(e4),
    ensures
        prop_element(s) matches Some((flag, after)) ==> exists|
            b1: Seq<TokenModel>,
            b2: Seq<TokenModel>,
            b3: Seq<TokenModel>,
            b4: Seq<TokenModel>,
        |
            extension_block(b1) && extension_block(b2) && extension_block(b3) && extension_block(b4)
                && s == prop_tokens(flag, b1, b2, b3, b4) + after,
        prop_element(prop_tokens(c, e1, e2, e3, e4) + rest) == Some((c, rest)),
        skip_extensions(s, Seq::empty()) matches Some(a) && a.len() > 0 && is_open(a[0], "prop")
            && prop_element(a) is None ==> propstat_body(s, None, st) is None,
{
    lemma_prop(c, e1, e2, e3, e4, rest);
    if let Some((flag, after)) = prop_element(s) {
        let t1 = s.drop_first();
        assert(s =~= seq![s[0]] + t1);
        assert(skip_extensions(t1, Seq::empty()) is Some);
        let a = skip_extensions(t1, Seq::empty())->Some_0;
        assert(a.len() > 0 && is_open(a[0], "resourcetype"));
        lemma_skipped_block(t1, Seq::empty());
        let b1 = t1.take(t1.len() - a.len());
        let t2 = a.drop_first();
        assert(a =~= seq![a[0]] + t2);
        assert(skip_extensions(t2, Seq::empty()) is Some);
        let b = skip_extensions(t2, Seq::empty())->Some_0;
        let has = b.len() >= 2 && is_open(b[0], "collection") && is_close(b[1], "collection");
        assert(has == flag);
        let cc = if flag {
            skip_extensions(b.skip(2), Seq::empty())->Some_0
        } else {
            b
        };
        assert(cc.len() > 0 && is_close(cc[0], "resourcetype"));
        let t4 = cc.drop_first();
        assert(cc =~= seq![cc[0]] + t4);
        assert(skip_extensions(t4, Seq::empty()) is Some);
        let d = skip_extensions(t4, Seq::empty())->Some_0;
        assert(d.len() > 0 && is_close(d[0], "prop"));
        lemma_skipped_block(t4, Seq::empty());
        let b4 = t4.take(t4.len() - d.len());
        assert(d.len() > 0);
        assert(after == d.drop_first());
        assert(t1 =~= b1 + a);
        let tail = seq![TokenModel::CloseStd("resourcetype"@)] + b4 + seq![TokenModel::CloseStd("prop"@)] + after;
        assert(cc =~= tail) by {
            assert(t4 =~= b4 + d);
            assert(d =~= seq![d[0]] + d.drop_first());
        }
        if flag {
            assert(b.len() >= 2);
            lemma_skipped_block(t2, Seq::empty());
            let b2 = t2.take(t2.len() - b.len());
            let t3 = b.skip(2);
            lemma_skipped_block(t3, Seq::empty());
            let b3 = t3.take(t3.len() - cc.len());
            assert(b =~= seq![b[0], b[1]] + t3);
            assert(t2 =~= b2 + b);
            assert(t3 =~= b3 + cc);
            assert(s == seq![s[0]] + (b1 + (seq![a[0]] + (b2 + (seq![b[0], b[1]] + (b3 + tail))))));
            assert(s =~= prop_tokens(flag, b1, b2, b3, b4) + after);
            assert(extension_block(b1) && extension_block(b2) && extension_block(b3) && extension_block(b4)
                && s == prop_tokens(flag, b1, b2, b3, b4) + after);
        } else {
            lemma_skipped_block(t2, Seq::empty());
            let b2 = t2.take(t2.len() - b.len());
            let b3 = Seq::<TokenModel>::empty();
            assert(t2 =~= b2 + b);
            assert(s == seq![s[0]] + (b1 + (seq![a[0]] + (b2 + tail))));
            assert(s =~= prop_tokens(flag, b1, b2, b3, b4) + after);
            assert(extension_block(b1) && extension_block(b2) && extension_block(b3) && extension_block(b4)
                && s == prop_tokens(flag, b1, b2, b3, b4) + after);
        }
    }
}

} // verus!

verus! {

// ---------------------------------------------------------------------------
// Classification and status

proof fn lemma_propstat_keeps(ps: Seq<PropstatPart>, acc: (Option<bool>, Option<Seq<char>>))
    requires
        acc.0 is Some,
        propstat_fold(ps, acc) is Some,
    ensures
        propstat_fold(ps, acc)->Some_0.0 == acc.0,
    decreases ps.len(),
{
    if ps.len() > 0 {
        lemma_propstat_keeps(ps.drop_first(), propstat_step(acc, ps[0])->Some_0);
    }
}

proof fn lemma_prop_flag(ps: Seq<PropstatPart>, acc: (Option<bool>, Option<Seq<char>>), i: int, c: bool)
    requires
        0 <= i < ps.len(),
        ps[i] matches PropstatPart::Prop { collection, .. } && collection == c,
        propstat_fold(ps, acc) is Some,
    ensures
        propstat_fold(ps, acc)->Some_0.0 == Some(c),
    decreases i,
{
    let a = propstat_step(acc, ps[0])->Some_0;
    if i == 0 {
        lemma_propstat_keeps(ps.drop_first(), a);
    } else {
        lemma_prop_flag(ps.drop_first(), a, i - 1, c);
    }
}

proof fn lemma_response_keeps(rs: Seq<ResponsePart>, acc: (Option<Seq<char>>, Option<(bool, Seq<char>)>))
    requires
        acc.1 is Some,
        response_fold(rs, acc) is Some,
    ensures
        response_fold(rs, acc)->Some_0.1 == acc.1,
    decreases rs.len(),
{
    if rs.len() > 0 {
        lemma_response_keeps(rs.drop_first(), response_step(acc, rs[0])->Some_0);
    }
}

proof fn lemma_propstat_recorded(rs: Seq<ResponsePart>, acc: (Option<Seq<char>>, Option<(bool, Seq<char>)>), p: int)
    requires
        0 <= p < rs.len(),
        rs[p] is Propstat,
        response_fold(rs, acc) is Some,
    ensures
        response_fold(rs, acc)->Some_0.1 == propstat_value(rs[p]->Propstat_0),
    decreases p,
{
    let a = response_step(acc, rs[0])->Some_0;
    if p == 0 {
        lemma_response_keeps(rs.drop_first(), a);
    } else {
        lemma_propstat_recorded(rs.drop_first(), a, p - 1);
    }
}

/// A valid response with an OK status is listed under `directories` when
/// its `resourcetype` holds `collection`, and under `files` when it is
/// empty.
pub proof fn lemma_resourcetype_classifies(rs: Seq<ResponsePart>, p: int, i: int, c: bool)
    requires
        response_parts_wf(rs),
        0 <= p < rs.len(),
        rs[p] is Propstat,
        0 <= i < rs[p]->Propstat_0.len(),
        rs[p]->Propstat_0[i] matches PropstatPart::Prop { collection, .. } && collection == c,
        response_value(rs) is Some,
        status_is_ok(response_value(rs)->Some_0.status),
    ensures
        ({
            let h = response_value(rs)->Some_0.href;
            parse_model(document_tokens(seq![DocumentPart::Response(rs)])) == if c {
                Ok::<ListingModel, FailureModel>(
                    ListingModel { directories: seq![h], files: Seq::empty() },
                )
            } else {
                Ok::<ListingModel, FailureModel>(
                    ListingModel { directories: Seq::empty(), files: seq![h] },
                )
            }
        }),
{
    let ds = seq![DocumentPart::Response(rs)];
    let m = response_value(rs)->Some_0;
    let ps = rs[p]->Propstat_0;
    lemma_propstat_recorded(rs, (None, None), p);
    lemma_prop_flag(ps, (None, None), i, c);
    assert(m.is_collection == c);
    assert(document_wf(ds)) by {
        assert forall|j: int| 0 <= j < ds.len() implies crate::document::document_part_wf(
            #[trigger] ds[j],
        ) by {}
    }
    assert(document_value(ds) == Some(seq![m])) by {
        assert(ds.drop_first() =~= Seq::<DocumentPart>::empty());
        assert(Seq::<ResponseModel>::empty().push(m) =~= seq![m]);
        reveal_with_fuel(document_fold, 2);
    }
    let one = seq![m];
    assert(one.drop_last() =~= Seq::<ResponseModel>::empty());
    assert(Seq::<Seq<char>>::empty().push(m.href) =~= seq![m.href]);
    assert(one.last() == m);
    assert(classify(one.drop_last()) == Ok::<ListingModel, FailureModel>(
        ListingModel { directories: Seq::empty(), files: Seq::empty() },
    ));
    lemma_document_reads_back(ds);
}

proof fn lemma_classify_ok_prefix(rs: Seq<ResponseModel>, k: int)
    requires
        0 <= k <= rs.len(),
        forall|j: int| 0 <= j < k ==> status_is_ok(#[trigger] rs[j].status),
    ensures
        classify(rs.take(k)) is Ok,
    decreases k,
{
    if k > 0 {
        assert(rs.take(k).drop_last() =~= rs.take(k - 1));
        lemma_classify_ok_prefix(rs, k - 1);
    }
}

/// In a document whose responses are all valid, the first response, in
/// document order, whose status line does not read `HTTP/<version> 200`
/// makes the parse fail with `BadStatus`, naming its href and status.
pub proof fn lemma_bad_status_reported(ds: Seq<DocumentPart>, i: int)
    requires
        document_wf(ds),
        document_value(ds) is Some,
        0 <= i < document_value(ds)->Some_0.len(),
        !status_is_ok(document_value(ds)->Some_0[i].status),
        forall|j: int| 0 <= j < i ==> status_is_ok(#[trigger] document_value(ds)->Some_0[j].status),
    ensures
        ({
            let r = document_value(ds)->Some_0[i];
            parse_model(document_tokens(ds)) == Err::<ListingModel, FailureModel>(
                FailureModel::BadStatus { href: r.href, status: r.status },
            )
        }),
{
    let rs = document_value(ds)->Some_0;
    lemma_classify_ok_prefix(rs, i);
    assert(rs.take(i + 1).drop_last() =~= rs.take(i));
    assert(rs.take(i + 1).last() == rs[i]);
    lemma_classify_first_failure(rs, i + 1);
    lemma_document_reads_back(ds);
}

} // verus!
