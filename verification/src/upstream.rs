//! The entity normalizer: raw provider entries and channels, already reduced
//! to plain values, are turned into the canonical [`Article`] and
//! [`Metadata`] shapes, and each gets its content fingerprint.
//!
//! Fetching a feed and decoding its transport format happen outside the
//! library; what arrives here is a [`RawChannel`] of [`RawItem`]s whose
//! fields carry exactly what the provider did or did not supply.

use crate::metadata::Metadata;
use vstd::prelude::*;

verus! {

/// The fingerprint of a designated field: what [`fingerprint`] returns for
/// that character sequence.  It depends on the characters alone, so equal
/// inputs are fingerprinted equally across calls, runs and machines.
pub uninterp spec fn md5_hex_of(s: Seq<char>) -> Seq<char>;

/// Relies on `md5::compute` (crate `md5`): the digest of the argument's
/// UTF-8 bytes, a function of the argument alone, rendered by its `LowerHex`
/// impl as 32 lowercase hex digits.
#[verifier::external_body]
pub fn fingerprint(s: &str) -> (r: String)
    ensures
        r@ == md5_hex_of(s@),
{
    format!("{:x}", md5::compute(s))
}

/// Idempotence of the fingerprint: equal designated fields always carry
/// equal fingerprints, whether computed in one run or in different ones.
pub proof fn lemma_fingerprint_idempotent(s1: Seq<char>, s2: Seq<char>)
    requires
        s1 == s2,
    ensures
        md5_hex_of(s1) == md5_hex_of(s2),
{
}

/// One entry as the provider gave it: every field optional, nothing
/// normalized yet.
pub struct RawItem {
    /// title of the entry, when given.
    pub title: Option<String>,
    /// link of the entry itself, when given.
    pub link: Option<String>,
    /// URL of the entry's source element, when given.
    pub source_url: Option<String>,
    /// author, when given.
    pub author: Option<String>,
    /// publication date, raw and unvalidated, when given.
    pub pub_date: Option<String>,
    /// plain description, when given.
    pub description: Option<String>,
    /// rich content, when given.
    pub content: Option<String>,
    /// categories in provider order.
    pub categories: Vec<String>,
}

/// One channel as the provider gave it.
pub struct RawChannel {
    /// the channel's own title.
    pub title: String,
    /// the channel's entries, newest first.
    pub items: Vec<RawItem>,
}

/// The string when present, else empty.
pub open spec fn or_empty(s: Option<Seq<char>>) -> Seq<char> {
    match s {
        Some(v) => v,
        None => Seq::empty(),
    }
}

/// The designated field an entry is fingerprinted by: its date when
/// nonempty, else its title when nonempty, else its description.
pub open spec fn item_candidate(x: RawItem) -> Seq<char> {
    let date = or_empty(x.pub_date.deep_view());
    let title = or_empty(x.title.deep_view());
    let description = or_empty(x.description.deep_view());
    if date.len() != 0 {
        date
    } else if title.len() == 0 {
        description
    } else {
        title
    }
}

/// An entry's link: the source element's URL when present, else the entry's
/// own link, else empty.
pub open spec fn item_link(x: RawItem) -> Seq<char> {
    match x.source_url.deep_view() {
        Some(u) => u,
        None => or_empty(x.link.deep_view()),
    }
}

/// An entry's content: the rich content when present, else the description,
/// else empty.
pub open spec fn item_content(x: RawItem) -> Seq<char> {
    match x.content.deep_view() {
        Some(c) => c,
        None => or_empty(x.description.deep_view()),
    }
}

/// A representation of an article in the feed.
#[derive(Debug)]
pub struct Article {
    /// title of this article.
    pub title: String,
    /// link to the original article.
    pub link: String,
    /// author of this article (if given).
    pub author: String,
    /// date when this article was posted.
    pub date: String,
    /// categories that this article falls in.
    pub category: Vec<String>,
    /// the main content of this article.
    pub content: String,
    /// the fingerprint of this article's designated field.
    pub checksum: String,
}

/// `a` is exactly the normalization of the raw entry `x`.
pub open spec fn is_normalized(a: Article, x: RawItem) -> bool {
    &&& a.title@ == or_empty(x.title.deep_view())
    &&& a.link@ == item_link(x)
    &&& a.author@ == or_empty(x.author.deep_view())
    &&& a.date@ == or_empty(x.pub_date.deep_view())
    &&& a.category.deep_view() == x.categories.deep_view()
    &&& a.content@ == item_content(x)
    &&& a.checksum@ == md5_hex_of(item_candidate(x))
}

impl Article {
    /// Constructs an `Article` from the given raw entry.  Every field has a
    /// total default, so normalization never fails, however sparse the raw
    /// entry is.
    pub fn new(x: &RawItem) -> (a: Article)
        ensures
            is_normalized(a, *x),
    {
        let date = match &x.pub_date {
            Some(v) => v.clone(),
            None => String::new(),
        };
        let title = match &x.title {
            Some(v) => v.clone(),
            None => String::new(),
        };
        let description = match &x.description {
            Some(v) => v.clone(),
            None => String::new(),
        };
        let candidate: &String = if !date.as_str().is_empty() {
            &date
        } else if title.as_str().is_empty() {
            &description
        } else {
            &title
        };
        let checksum = fingerprint(candidate.as_str());
        let link = match &x.source_url {
            Some(u) => u.clone(),
            None => match &x.link {
                Some(v) => v.clone(),
                None => String::new(),
            },
        };
        let content = match &x.content {
            Some(c) => c.clone(),
            None => description.clone(),
        };
        let author = match &x.author {
            Some(v) => v.clone(),
            None => String::new(),
        };
        let mut category: Vec<String> = Vec::new();
        let mut i: usize = 0;
        while i < x.categories.len()
            invariant
                i <= x.categories@.len(),
                category@.len() == i,
                forall|j: int| 0 <= j < i ==> (#[trigger] category@[j])@ == x.categories@[j]@,
            decreases x.categories@.len() - i,
        {
            category.push(x.categories[i].clone());
            i += 1;
        }
        proof {
            assert(category.deep_view() =~= x.categories.deep_view());
        }
        Article { title, link, author, date, category, content, checksum }
    }
}

/// The designated field a channel's summary is fingerprinted by: from the
/// first entry, the first of date, title, description that the provider
/// supplied at all, else the channel's own title; the channel's title also
/// stands in when the channel has no entries.
pub open spec fn channel_candidate(ch: RawChannel) -> Seq<char> {
    if ch.items@.len() == 0 {
        ch.title@
    } else {
        let first = ch.items@[0];
        match first.pub_date.deep_view() {
            Some(d) => d,
            None => match first.title.deep_view() {
                Some(t) => t,
                None => match first.description.deep_view() {
                    Some(de) => de,
                    None => ch.title@,
                },
            },
        }
    }
}

impl Metadata {
    /// Construct the checkpoint metadata for a freshly fetched channel.
    pub fn new(ch: &RawChannel) -> (m: Metadata)
        ensures
            m.title@ == ch.title@,
            m.checksum@ == md5_hex_of(channel_candidate(*ch)),
    {
        let candidate: &String = if ch.items.len() == 0 {
            &ch.title
        } else {
            match &ch.items[0].pub_date {
                Some(v) => v,
                None => match &ch.items[0].title {
                    Some(v) => v,
                    None => match &ch.items[0].description {
                        Some(v) => v,
                        None => &ch.title,
                    },
                },
            }
        };
        let checksum = fingerprint(candidate.as_str());
        Metadata { title: ch.title.clone(), checksum }
    }
}

/// A representation of a feed.
#[derive(Debug)]
pub struct Source {
    /// articles given in the feed, newest first.
    pub article: Vec<Article>,
    /// metadata about this feed.
    pub metadata: Metadata,
}

/// Error raised while retrieving a feed.
#[derive(Debug, Clone, Copy, PartialEq, Eq, Structural)]
pub enum Error {
    /// failed to parse the given RSS feed.
    RSSParseFailed,
}

impl Source {
    /// Normalize a whole fetched channel: its summary metadata and each of
    /// its entries, in provider order.
    pub fn new(ch: &RawChannel) -> (s: Source)
        ensures
            s.metadata.title@ == ch.title@,
            s.metadata.checksum@ == md5_hex_of(channel_candidate(*ch)),
            s.article@.len() == ch.items@.len(),
            forall|i: int|
                0 <= i < ch.items@.len() ==> is_normalized(
                    #[trigger] s.article@[i],
                    ch.items@[i],
                ),
    {
        let metadata = Metadata::new(ch);
        let mut article: Vec<Article> = Vec::new();
        let mut i: usize = 0;
        while i < ch.items.len()
            invariant
                i <= ch.items@.len(),
                article@.len() == i,
                forall|j: int|
                    0 <= j < i ==> is_normalized(#[trigger] article@[j], ch.items@[j]),
            decreases ch.items@.len() - i,
        {
            article.push(Article::new(&ch.items[i]));
            i += 1;
        }
        Source { article, metadata }
    }
}

} // verus!
