//! From the bytes of a body to the token stream, through xml-rs's reader.
use vstd::prelude::*;
use crate::token::{is_standard_namespace, model, opt_view, Token, TokenModel};
use xml::reader::{ParserConfig2, XmlEvent};

verus! {

#[verifier::external_type_specification]
#[verifier::external_body]
pub struct ExXmlError(xml::reader::Error);

#[verifier::external_type_specification]
#[verifier::external_body]
pub struct ExOwnedAttribute(xml::attribute::OwnedAttribute);

#[verifier::external_type_specification]
#[verifier::external_body]
pub struct ExNamespace(xml::namespace::Namespace);

#[verifier::external_type_specification]
#[verifier::external_body]
pub struct ExXmlVersion(xml::common::XmlVersion);

#[verifier::external_type_specification]
pub struct ExOwnedName(xml::name::OwnedName);

#[verifier::external_type_specification]
pub struct ExXmlEvent(XmlEvent);

/// Why a body could not be read as a token stream.
#[derive(Debug, PartialEq)]
pub enum XmlTokenizeError {
    /// The XML reader refused the document.
    Xml(xml::reader::Error),
    /// The document holds a processing instruction.
    ProcessingInstruction,
}

/// The events that xml-rs's reader, configured as [`read_events`] does it,
/// hands out for `blob` up to and including `EndDocument`; `None` where it
/// stops on an error.
pub uninterp spec fn xml_events(blob: Seq<u8>, charset: Option<Seq<char>>) -> Option<Seq<XmlEvent>>;

/// Relies on xml-rs's `ParserConfig2` and `EventReader`, read to the end as
/// an iterator: the events of one document with a single root element,
/// whitespace trimmed, and the encoding that `charset` names, where xml-rs
/// knows the label, taking the place of the declared one; or the first error.
/// The reader's events depend on the bytes and the label alone.
#[verifier::external_body]
fn read_events(blob: &[u8], charset: &Option<String>) -> (r: Result<Vec<XmlEvent>, xml::reader::Error>)
    ensures
        match xml_events(blob@, opt_view(*charset)) {
            Some(evs) => r matches Ok(v) && v@ == evs,
            None => r is Err,
        },
{
    let encoding = match charset {
        Some(cs) => cs.parse::<xml::Encoding>().ok(),
        None => None,
    };
    ParserConfig2::new()
        .ignore_invalid_encoding_declarations(false)
        .override_encoding(encoding)
        .allow_multiple_root_elements(false)
        .trim_whitespace(true)
        .create_reader(blob)
        .into_iter()
        .collect()
}

/// The token an event gives, if any: start and end tags, split into
/// standard and extension elements by their namespace, and text, both
/// character data and CDATA sections.
pub open spec fn event_token(e: XmlEvent) -> Option<TokenModel> {
    match e {
        XmlEvent::StartElement { name, .. } => Some(
            if is_standard_namespace(opt_view(name.namespace)) {
                TokenModel::OpenStd(name.local_name@)
            } else {
                TokenModel::OpenExt(name.local_name@, name.namespace->Some_0@)
            },
        ),
        XmlEvent::EndElement { name } => Some(
            if is_standard_namespace(opt_view(name.namespace)) {
                TokenModel::CloseStd(name.local_name@)
            } else {
                TokenModel::CloseExt(name.local_name@, name.namespace->Some_0@)
            },
        ),
        XmlEvent::CData(s) => Some(TokenModel::Text(s@)),
        XmlEvent::Characters(s) => Some(TokenModel::Text(s@)),
        _ => None,
    }
}

/// The tokens of an event sequence, in order; `None` where a processing
/// instruction occurs. Document markers, comments and whitespace give no
/// token.
pub open spec fn tokens_of_events(evs: Seq<XmlEvent>) -> Option<Seq<TokenModel>>
    decreases evs.len(),
{
    if evs.len() == 0 {
        Some(Seq::empty())
    } else {
        match tokens_of_events(evs.drop_last()) {
            None => None,
            Some(ts) => {
                if evs.last() is ProcessingInstruction {
                    None
                } else {
                    match event_token(evs.last()) {
                        Some(t) => Some(ts.push(t)),
                        None => Some(ts),
                    }
                }
            },
        }
    }
}

fn clone_opt(o: &Option<String>) -> (r: Option<String>)
    ensures
        opt_view(r) == opt_view(*o),
{
    match o {
        Some(s) => Some(s.clone()),
        None => None,
    }
}

proof fn lemma_no_tokens_after_instruction(evs: Seq<XmlEvent>, k: int)
    requires
        0 <= k <= evs.len(),
        tokens_of_events(evs.take(k)) is None,
    ensures
        tokens_of_events(evs) is None,
    decreases evs.len() - k,
{
    if k == evs.len() {
        assert(evs.take(k) =~= evs);
    } else {
        let shorter = evs.drop_last();
        assert(shorter.take(k) =~= evs.take(k));
        lemma_no_tokens_after_instruction(shorter, k);
    }
}

/// Turns reader events into tokens; a processing instruction is refused.
pub fn tokens_from_events(events: &Vec<XmlEvent>) -> (r: Result<Vec<Token>, XmlTokenizeError>)
    ensures
        match tokens_of_events(events@) {
            None => r matches Err(XmlTokenizeError::ProcessingInstruction),
            Some(ts) => r matches Ok(v) && model(v@) == ts,
        },
{
    let mut tokens: Vec<Token> = Vec::new();
    let mut k: usize = 0;
    proof {
        assert(events@.take(0) =~= Seq::<XmlEvent>::empty());
        assert(model(tokens@) =~= Seq::empty());
    }
    while k < events.len()
        invariant
            k <= events@.len(),
            tokens_of_events(events@.take(k as int)) == Some(model(tokens@)),
        decreases events.len() - k,
    {
        proof {
            assert(events@.take(k + 1).drop_last() =~= events@.take(k as int));
            assert(events@.take(k + 1).last() == events@[k as int]);
        }
        let ghost before = model(tokens@);
        match &events[k] {
            XmlEvent::StartElement { name, .. } => {
                tokens.push(Token::open(name.local_name.clone(), clone_opt(&name.namespace)));
                proof {
                    assert(model(tokens@) =~= before.push(tokens@.last()@));
                }
            },
            XmlEvent::EndElement { name } => {
                tokens.push(Token::close(name.local_name.clone(), clone_opt(&name.namespace)));
                proof {
                    assert(model(tokens@) =~= before.push(tokens@.last()@));
                }
            },
            XmlEvent::CData(s) => {
                tokens.push(Token::Text(s.clone()));
                proof {
                    assert(model(tokens@) =~= before.push(tokens@.last()@));
                }
            },
            XmlEvent::Characters(s) => {
                tokens.push(Token::Text(s.clone()));
                proof {
                    assert(model(tokens@) =~= before.push(tokens@.last()@));
                }
            },
            XmlEvent::ProcessingInstruction { .. } => {
                proof {
                    lemma_no_tokens_after_instruction(events@, k + 1);
                }
                return Err(XmlTokenizeError::ProcessingInstruction);
            },
            _ => {},
        }
        k = k + 1;
    }
    proof {
        assert(events@.take(k as int) =~= events@);
    }
    Ok(tokens)
}

/// Reads a body into tokens.
pub fn tokenize(blob: &[u8], charset: &Option<String>) -> (r: Result<Vec<Token>, XmlTokenizeError>)
    ensures
        match xml_events(blob@, opt_view(*charset)) {
            None => r matches Err(XmlTokenizeError::Xml(_)),
            Some(evs) => match tokens_of_events(evs) {
                None => r matches Err(XmlTokenizeError::ProcessingInstruction),
                Some(ts) => r matches Ok(v) && model(v@) == ts,
            },
        },
{
    match read_events(blob, charset) {
        Err(e) => Err(XmlTokenizeError::Xml(e)),
        Ok(events) => tokens_from_events(&events),
    }
}

} // verus!
