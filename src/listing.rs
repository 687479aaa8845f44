//! Directory listings, and turning a listing of hrefs into one of URLs.
use vstd::prelude::*;
use crate::grammar::ListingModel;
use crate::grammar::parse_model;
use crate::parse::{body_agrees, parse_multistatus, FromXmlError};
use crate::tokenize::{tokens_of_events, xml_events};
use crate::status::chars_of;
use crate::token::opt_view;

verus! {

/// The children of one collection, in the order the server reported them.
#[derive(Clone, Debug, PartialEq, Eq)]
pub struct DirectoryListing {
    pub directories: Vec<String>,
    pub files: Vec<String>,
}

/// The characters of each string.
pub open spec fn texts(v: Seq<String>) -> Seq<Seq<char>> {
    v.map_values(|s: String| s@)
}

impl View for DirectoryListing {
    type V = ListingModel;

    open spec fn view(&self) -> ListingModel {
        ListingModel { directories: texts(self.directories@), files: texts(self.files@) }
    }
}

/// `href` resolved against the absolute URL `base`, serialized; `None` where
/// `base` is no absolute URL or `href` does not resolve against it.
pub uninterp spec fn joined_url(base: Seq<char>, href: Seq<char>) -> Option<Seq<char>>;

/// Relies on url's `Url::parse` (reading `base`) and `Url::join`: the
/// reference `href` resolved against `base`, as its serialization, or `None`
/// where either step fails. The result depends on the two strings alone.
#[verifier::external_body]
fn join_url(base: &str, href: &str) -> (r: Option<String>)
    ensures
        opt_view(r) == joined_url(base@, href@),
{
    match url::Url::parse(base) {
        Ok(b) => b.join(href).ok().map(String::from),
        Err(_) => None,
    }
}

/// Whether every href resolves against `base`.
pub open spec fn all_resolve(base: Seq<char>, hrefs: Seq<Seq<char>>) -> bool {
    forall|i: int| 0 <= i < hrefs.len() ==> (#[trigger] joined_url(base, hrefs[i])) is Some
}

/// Each href resolved against `base`.
pub open spec fn resolve_each(base: Seq<char>, hrefs: Seq<Seq<char>>) -> Seq<Seq<char>> {
    hrefs.map_values(|h: Seq<char>| joined_url(base, h)->Some_0)
}

/// Resolves each href against `base`, keeping their order.
fn join_all(base: &str, hrefs: &Vec<String>) -> (r: Option<Vec<String>>)
    ensures
        r is Some <==> all_resolve(base@, texts(hrefs@)),
        r matches Some(v) ==> texts(v@) == resolve_each(base@, texts(hrefs@)),
{
    let mut out: Vec<String> = Vec::new();
    let mut k: usize = 0;
    while k < hrefs.len()
        invariant
            k <= hrefs@.len(),
            all_resolve(base@, texts(hrefs@.take(k as int))),
            texts(out@) == resolve_each(base@, texts(hrefs@.take(k as int))),
        decreases hrefs.len() - k,
    {
        let ghost before = out@;
        match join_url(base, hrefs[k].as_str()) {
            None => {
                assert(joined_url(base@, texts(hrefs@)[k as int]) is None);
                return None;
            },
            Some(u) => {
                out.push(u);
                proof {
                    assert(texts(hrefs@.take(k + 1)) =~= texts(hrefs@.take(k as int)).push(
                        hrefs@[k as int]@,
                    ));
                    assert(texts(out@) =~= texts(before).push(out@.last()@));
                    assert(resolve_each(base@, texts(hrefs@.take(k + 1))) =~= resolve_each(
                        base@,
                        texts(hrefs@.take(k as int)),
                    ).push(joined_url(base@, hrefs@[k as int]@)->Some_0));
                    assert forall|i: int| 0 <= i < k + 1 implies (#[trigger] joined_url(
                        base@,
                        texts(hrefs@.take(k + 1))[i],
                    )) is Some by {
                        if i < k {
                            assert(texts(hrefs@.take(k + 1))[i] == texts(hrefs@.take(k as int))[i]);
                        }
                    }
                }
            },
        }
        k = k + 1;
    }
    proof {
        assert(hrefs@.take(k as int) =~= hrefs@);
    }
    Some(out)
}

/// `s` without its trailing slashes.
pub open spec fn trim_end_slashes(s: Seq<char>) -> Seq<char>
    decreases s.len(),
{
    if s.len() > 0 && s.last() == '/' {
        trim_end_slashes(s.drop_last())
    } else {
        s
    }
}

/// Whether two URLs name the same collection: they are equal once trailing
/// slashes are dropped.
pub open spec fn same_collection(a: Seq<char>, b: Seq<char>) -> bool {
    trim_end_slashes(a) == trim_end_slashes(b)
}

/// How many characters of `cs` are left once trailing slashes are dropped.
fn trimmed_len(cs: &Vec<char>) -> (n: usize)
    ensures
        n <= cs@.len(),
        trim_end_slashes(cs@) == cs@.take(n as int),
{
    let mut k = cs.len();
    proof {
        assert(cs@.take(k as int) =~= cs@);
    }
    while k > 0 && cs[k - 1] == '/'
        invariant
            k <= cs@.len(),
            trim_end_slashes(cs@) == trim_end_slashes(cs@.take(k as int)),
        decreases k,
    {
        assert(cs@.take(k as int).drop_last() =~= cs@.take(k - 1));
        k = k - 1;
    }
    k
}

/// Whether `url` names the collection `colurl`, trailing slashes aside.
pub fn is_collection_url(colurl: &str, url: &str) -> (r: bool)
    ensures
        r == same_collection(colurl@, url@),
{
    let a = chars_of(colurl);
    let b = chars_of(url);
    let n = trimmed_len(&a);
    let m = trimmed_len(&b);
    if n != m {
        assert(a@.take(n as int).len() != b@.take(m as int).len());
        return false;
    }
    let mut k: usize = 0;
    while k < n
        invariant
            k <= n,
            n == m,
            a@ == colurl@,
            b@ == url@,
            trim_end_slashes(a@) == a@.take(n as int),
            trim_end_slashes(b@) == b@.take(m as int),
            n <= a@.len(),
            n <= b@.len(),
            forall|i: int| 0 <= i < k ==> a@[i] == b@[i],
        decreases n - k,
    {
        if a[k] != b[k] {
            assert(a@.take(n as int)[k as int] != b@.take(m as int)[k as int]);
            assert(a@.take(n as int) != b@.take(m as int));
            return false;
        }
        k = k + 1;
    }
    assert(a@.take(n as int) =~= b@.take(m as int));
    true
}

/// The directories of a listing other than the collection `url` itself.
pub open spec fn other_directories(url: Seq<char>, dirs: Seq<Seq<char>>) -> Seq<Seq<char>> {
    dirs.filter(|d: Seq<char>| !same_collection(url, d))
}

/// Drops the entries that name the collection `url` itself.
fn without_self(dirs: Vec<String>, url: &str) -> (r: Vec<String>)
    ensures
        texts(r@) == other_directories(url@, texts(dirs@)),
        forall|i: int| 0 <= i < r@.len() ==> !same_collection(url@, #[trigger] texts(r@)[i]),
{
    let mut out: Vec<String> = Vec::new();
    let mut k: usize = 0;
    proof {
        reveal(Seq::filter);
        assert(texts(dirs@.take(0)) =~= Seq::empty());
        assert(texts(out@) =~= Seq::empty());
    }
    while k < dirs.len()
        invariant
            k <= dirs@.len(),
            texts(out@) == other_directories(url@, texts(dirs@.take(k as int))),
        decreases dirs.len() - k,
    {
        proof {
            reveal(Seq::filter);
            assert(texts(dirs@.take(k + 1)).drop_last() =~= texts(dirs@.take(k as int)));
        }
        if !is_collection_url(url, dirs[k].as_str()) {
            let ghost before = out@;
            out.push(dirs[k].clone());
            proof {
                assert(texts(out@) =~= texts(before).push(dirs@[k as int]@));
            }
        }
        k = k + 1;
    }
    proof {
        assert(dirs@.take(k as int) =~= dirs@);
        texts(dirs@).filter_lemma(|d: Seq<char>| !same_collection(url@, d));
    }
    out
}

impl DirectoryListing {
    /// Resolves every href of the listing against `base_url`; `None` where
    /// one of them does not resolve.
    pub fn paths_to_urls(self, base_url: &str) -> (r: Option<DirectoryListing>)
        ensures
            r is Some <==> all_resolve(base_url@, self@.directories) && all_resolve(
                base_url@,
                self@.files,
            ),
            r matches Some(l) ==> l@.directories == resolve_each(base_url@, self@.directories)
                && l@.files == resolve_each(base_url@, self@.files),
    {
        let directories = match join_all(base_url, &self.directories) {
            None => return None,
            Some(d) => d,
        };
        let files = match join_all(base_url, &self.files) {
            None => return None,
            Some(f) => f,
        };
        Some(DirectoryListing { directories, files })
    }
}

/// Why the body of a `PROPFIND` reply gives no listing.
#[derive(Debug, PartialEq)]
pub enum ListingError {
    /// The body is not an acceptable multistatus document.
    Body(FromXmlError),
    /// An href does not resolve against the base URL.
    UnresolvableHref,
}

/// The charset parameter of a `Content-Type` value, where the value parses
/// as a media type and names one.
pub uninterp spec fn charset_param(content_type: Seq<char>) -> Option<Seq<char>>;

/// Relies on mime's `Mime` parser (`FromStr`) and `Mime::get_param`: the
/// value of the `charset` parameter, or `None` where the value is no media
/// type or has no such parameter. It depends on the value alone.
#[verifier::external_body]
fn content_type_charset(content_type: &str) -> (r: Option<String>)
    ensures
        opt_view(r) == charset_param(content_type@),
{
    match content_type.parse::<mime::Mime>() {
        Ok(m) => match m.get_param("charset") {
            Some(c) => Some(c.as_str().to_owned()),
            None => None,
        },
        Err(_) => None,
    }
}

/// The charset that a `Content-Type` header value gives, if any.
pub open spec fn header_charset(content_type: Option<Seq<char>>) -> Option<Seq<char>> {
    match content_type {
        Some(v) => charset_param(v),
        None => None,
    }
}

/// The listing of hrefs that a body gives, where it gives one.
pub open spec fn parsed_listing(blob: Seq<u8>, charset: Option<Seq<char>>) -> Option<ListingModel> {
    match xml_events(blob, charset) {
        Some(evs) => match tokens_of_events(evs) {
            Some(ts) => match parse_model(ts) {
                Ok(l) => Some(l),
                Err(_) => None,
            },
            None => None,
        },
        None => None,
    }
}

/// The listing of the collection `url` that a `PROPFIND` reply gives: the
/// body read as a multistatus document, in the charset of the
/// `Content-Type` header where it names one, every href resolved against
/// `base_url`, and the collection itself left out of `directories`.
pub fn directory_listing(
    body: &[u8],
    content_type: Option<&str>,
    base_url: &str,
    url: &str,
) -> (r: Result<DirectoryListing, ListingError>)
    ensures
        ({
            let charset = header_charset(
                match content_type {
                    Some(v) => Some(v@),
                    None => None,
                },
            );
            match parsed_listing(body@, charset) {
                None => r matches Err(ListingError::Body(e)) && body_agrees(body@, charset, Err(e)),
                Some(l) => if all_resolve(base_url@, l.directories) && all_resolve(
                    base_url@,
                    l.files,
                ) {
                    r matches Ok(out) && out@.directories == other_directories(
                        url@,
                        resolve_each(base_url@, l.directories),
                    ) && out@.files == resolve_each(base_url@, l.files) && forall|i: int|
                        0 <= i < out@.directories.len() ==> !same_collection(
                            url@,
                            #[trigger] out@.directories[i],
                        )
                } else {
                    r matches Err(ListingError::UnresolvableHref)
                },
            }
        }),
{
    let charset = match content_type {
        Some(v) => content_type_charset(v),
        None => None,
    };
    let listing = match parse_multistatus(body, charset) {
        Err(e) => return Err(ListingError::Body(e)),
        Ok(l) => l,
    };
    match listing.paths_to_urls(base_url) {
        None => Err(ListingError::UnresolvableHref),
        Some(resolved) => {
            let directories = without_self(resolved.directories, url);
            Ok(DirectoryListing { directories, files: resolved.files })
        },
    }
}

} // verus!

verus! {

/// A task that a collection's listing spawns.
#[derive(Clone, Debug, PartialEq, Eq)]
pub enum ChildTask {
    /// List this collection.
    Directory(String),
    /// Probe this file.
    File(String),
}

/// The tasks a listing spawns: one directory task per directory, then one
/// file task per file, each in listing order.
pub fn child_tasks(listing: &DirectoryListing) -> (r: Vec<ChildTask>)
    ensures
        r@.len() == listing.directories@.len() + listing.files@.len(),
        forall|i: int|
            0 <= i < listing.directories@.len() ==> r@[i] == ChildTask::Directory(
                listing.directories@[i],
            ),
        forall|i: int|
            0 <= i < listing.files@.len() ==> r@[listing.directories@.len() + i] == ChildTask::File(
                listing.files@[i],
            ),
{
    let mut tasks: Vec<ChildTask> = Vec::new();
    let mut k: usize = 0;
    while k < listing.directories.len()
        invariant
            k <= listing.directories@.len(),
            tasks@.len() == k,
            forall|i: int| 0 <= i < k ==> tasks@[i] == ChildTask::Directory(listing.directories@[i]),
        decreases listing.directories.len() - k,
    {
        tasks.push(ChildTask::Directory(listing.directories[k].clone()));
        k = k + 1;
    }
    let n = listing.directories.len();
    let mut m: usize = 0;
    while m < listing.files.len()
        invariant
            n == listing.directories@.len(),
            m <= listing.files@.len(),
            tasks@.len() == n + m,
            forall|i: int| 0 <= i < n ==> tasks@[i] == ChildTask::Directory(listing.directories@[i]),
            forall|i: int| 0 <= i < m ==> tasks@[n + i] == ChildTask::File(listing.files@[i]),
        decreases listing.files.len() - m,
    {
        tasks.push(ChildTask::File(listing.files[m].clone()));
        m = m + 1;
    }
    tasks
}

} // verus!
