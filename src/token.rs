use vstd::prelude::*;

verus! {

/// The XML namespace of the standard WebDAV elements.
pub const DAV_XMLNS: &'static str = "DAV:";

/// One item of the flat token stream that the multistatus grammar reads.
///
/// Elements in the `DAV:` namespace, or in no namespace, are standard; all
/// others are extensions.
#[derive(Clone, Debug, PartialEq, Eq)]
pub enum Token {
    OpenStd(String),
    CloseStd(String),
    OpenExt { name: String, namespace: String },
    CloseExt { name: String, namespace: String },
    Text(String),
}

/// The mathematical value of a [`Token`].
pub enum TokenModel {
    OpenStd(Seq<char>),
    CloseStd(Seq<char>),
    OpenExt(Seq<char>, Seq<char>),
    CloseExt(Seq<char>, Seq<char>),
    Text(Seq<char>),
}

impl View for Token {
    type V = TokenModel;

    open spec fn view(&self) -> TokenModel {
        match self {
            Token::OpenStd(n) => TokenModel::OpenStd(n@),
            Token::CloseStd(n) => TokenModel::CloseStd(n@),
            Token::OpenExt { name, namespace } => TokenModel::OpenExt(name@, namespace@),
            Token::CloseExt { name, namespace } => TokenModel::CloseExt(name@, namespace@),
            Token::Text(t) => TokenModel::Text(t@),
        }
    }
}

/// The token stream as a sequence of values.
pub open spec fn model(toks: Seq<Token>) -> Seq<TokenModel> {
    toks.map_values(|t: Token| t@)
}

/// The characters of an optional string.
pub open spec fn opt_view(o: Option<String>) -> Option<Seq<char>> {
    match o {
        Some(s) => Some(s@),
        None => None,
    }
}

/// Whether an element with this namespace counts as standard.
pub open spec fn is_standard_namespace(namespace: Option<Seq<char>>) -> bool {
    match namespace {
        None => true,
        Some(ns) => ns == DAV_XMLNS@,
    }
}

/// Whether `a` and `b` hold the same characters.
pub fn same_text(a: &str, b: &str) -> (r: bool)
    ensures
        r == (a@ == b@),
{
    a.to_owned() == b.to_owned()
}

impl Token {
    /// The token for a start tag with this local name and namespace.
    pub fn open(name: String, namespace: Option<String>) -> (r: Token)
        ensures
            is_standard_namespace(opt_view(namespace)) ==> r@ == TokenModel::OpenStd(name@),
            !is_standard_namespace(opt_view(namespace)) ==> r@ == TokenModel::OpenExt(
                name@,
                namespace->Some_0@,
            ),
    {
        match namespace {
            Some(ns) => {
                if same_text(ns.as_str(), DAV_XMLNS) {
                    Token::OpenStd(name)
                } else {
                    Token::OpenExt { name, namespace: ns }
                }
            },
            None => Token::OpenStd(name),
        }
    }

    /// The token for an end tag with this local name and namespace.
    pub fn close(name: String, namespace: Option<String>) -> (r: Token)
        ensures
            is_standard_namespace(opt_view(namespace)) ==> r@ == TokenModel::CloseStd(name@),
            !is_standard_namespace(opt_view(namespace)) ==> r@ == TokenModel::CloseExt(
                name@,
                namespace->Some_0@,
            ),
    {
        match namespace {
            Some(ns) => {
                if same_text(ns.as_str(), DAV_XMLNS) {
                    Token::CloseStd(name)
                } else {
                    Token::CloseExt { name, namespace: ns }
                }
            },
            None => Token::CloseStd(name),
        }
    }
}

} // verus!
