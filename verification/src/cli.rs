//! The sync engine: the boundary computation between "already dumped" and
//! "new" entries, the checkpoint-recovery policy, and one feed's whole turn.
//!
//! Everything here is pure computation over already-fetched data; reading
//! the store, fetching feeds, rendering and writing files all happen outside
//! the library.

use crate::metadata::{spec_insert, Collection, Metadata, MetadataV};
use crate::upstream::{Article, Source};
use crate::util::Error;
use vstd::prelude::*;

verus! {

/// The options available when running `rsst`.
pub struct Opt {
    /// Print the list of paths that articles would be written into, and
    /// fetch nothing.
    pub dry_run: bool,
    /// Print the articles instead of writing files.
    pub stdout: bool,
    /// Load the configuration file at this path.
    pub config: Option<String>,
}

/// Recover from a missing or corrupt checkpoint store.  Those two load
/// failures are absorbed as "start from empty" — at worst one run's worth of
/// entries is re-emitted — while any other failure propagates.
pub fn get_collection(loaded: Result<Collection, Error>) -> (r: Result<Collection, Error>)
    ensures
        match loaded {
            Ok(c) => r is Ok && r->Ok_0 == c,
            Err(e) => {
                if e == Error::NotFound || e == Error::ParseFailed {
                    &&& r is Ok
                    &&& r->Ok_0@ == Seq::<(Seq<char>, MetadataV)>::empty()
                    &&& r->Ok_0.wf()
                } else {
                    r == Err::<Collection, Error>(e)
                }
            },
        },
{
    match loaded {
        Ok(v) => Ok(v),
        Err(Error::NotFound) | Err(Error::ParseFailed) => Ok(Collection::new()),
        Err(e) => Err(e),
    }
}

/// The index of the first article whose fingerprint equals the watermark, or
/// the sequence's length when none matches.
pub open spec fn boundary(watermark: Seq<char>, articles: Seq<Article>) -> int
    decreases articles.len(),
{
    if articles.len() == 0 {
        0
    } else if articles[0].checksum@ == watermark {
        0
    } else {
        1 + boundary(watermark, articles.drop_first())
    }
}

/// The exclusive upper bound of the "new" prefix: everything when there is
/// no previous checkpoint, otherwise everything strictly before the first
/// article carrying the previous checkpoint's fingerprint.
pub open spec fn spec_bound(watermark: Option<Seq<char>>, articles: Seq<Article>) -> int {
    match watermark {
        None => articles.len() as int,
        Some(w) => boundary(w, articles),
    }
}

/// The watermark taken from a previous checkpoint, when there was one.
pub open spec fn spec_watermark(metadata: Option<Metadata>) -> Option<Seq<char>> {
    match metadata {
        Some(m) => Some(m.checksum@),
        None => None,
    }
}

/// What `boundary` returns is the first match: it is in range, nothing
/// before it matches the watermark, and when it is not the whole length it
/// lands on a match.
pub proof fn lemma_boundary_props(w: Seq<char>, articles: Seq<Article>)
    ensures
        0 <= boundary(w, articles) <= articles.len(),
        forall|i: int|
            0 <= i < boundary(w, articles) ==> (#[trigger] articles[i]).checksum@ != w,
        boundary(w, articles) < articles.len() ==> articles[boundary(w, articles)].checksum@ == w,
    decreases articles.len(),
{
    if articles.len() > 0 && articles[0].checksum@ != w {
        lemma_boundary_props(w, articles.drop_first());
        let t = articles.drop_first();
        assert(forall|i: int| 1 <= i < articles.len() ==> (#[trigger] articles[i]) == t[i - 1]);
    }
}

/// Steady-state boundary: when entry `k` is the first to carry the
/// watermark's fingerprint, exactly the entries before `k` are new.
pub proof fn lemma_steady_state_boundary(w: Seq<char>, articles: Seq<Article>, k: int)
    requires
        0 <= k < articles.len(),
        articles[k].checksum@ == w,
        forall|j: int| 0 <= j < k ==> (#[trigger] articles[j]).checksum@ != w,
    ensures
        spec_bound(Some(w), articles) == k,
    decreases k,
{
    if k == 0 {
    } else {
        let t = articles.drop_first();
        assert(forall|i: int| 1 <= i < articles.len() ==> (#[trigger] articles[i]) == t[i - 1]);
        assert(forall|j: int| 0 <= j < k - 1 ==> (#[trigger] t[j]).checksum@ != w);
        lemma_steady_state_boundary(w, t, k - 1);
    }
}

/// Watermark-loss fallback: when no fetched entry carries the watermark's
/// fingerprint, every fetched entry is new — none is silently dropped.
pub proof fn lemma_watermark_loss_fallback(w: Seq<char>, articles: Seq<Article>)
    requires
        forall|j: int| 0 <= j < articles.len() ==> (#[trigger] articles[j]).checksum@ != w,
    ensures
        spec_bound(Some(w), articles) == articles.len(),
        articles.take(spec_bound(Some(w), articles)) == articles,
{
    lemma_boundary_props(w, articles);
    assert(articles.take(articles.len() as int) =~= articles);
}

/// First-run completeness: with no previous checkpoint for the alias — in
/// particular, from an empty collection — every fetched entry is new.
pub proof fn lemma_first_run_completeness(alias: Seq<char>, articles: Seq<Article>)
    ensures
        spec_bound(prev_watermark(Map::empty(), alias), articles) == articles.len(),
        articles.take(spec_bound(prev_watermark(Map::empty(), alias), articles)) == articles,
{
    assert(articles.take(articles.len() as int) =~= articles);
}

/// Gets the exclusive upper bound index that marks the last article that
/// should be dumped.
pub fn get_bound(metadata: Option<Metadata>, article: &[Article]) -> (bound: usize)
    ensures
        bound == spec_bound(spec_watermark(metadata), article@),
{
    match metadata {
        Some(m) => {
            let n = article.len();
            let mut i: usize = 0;
            while i < n
                invariant
                    metadata == Some(m),
                    n == article@.len(),
                    i <= n,
                    forall|j: int|
                        0 <= j < i ==> (#[trigger] article@[j]).checksum@ != m.checksum@,
                decreases n - i,
            {
                if article[i].checksum == m.checksum {
                    proof {
                        assert(article@[i as int].checksum@ == m.checksum@);
                        lemma_steady_state_boundary(m.checksum@, article@, i as int);
                        assert(spec_bound(Some(m.checksum@), article@) == i as int);
                        assert(spec_watermark(metadata) == Some(m.checksum@));
                    }
                    return i;
                }
                i += 1;
            }
            proof {
                lemma_boundary_props(m.checksum@, article@);
            }
            n
        },
        None => article.len(),
    }
}

/// The watermark the engine compares against: the fingerprint stored for
/// `alias`, when the collection has an entry for it.
pub open spec fn prev_watermark(m: Map<Seq<char>, MetadataV>, alias: Seq<char>) -> Option<
    Seq<char>,
> {
    if m.contains_key(alias) {
        Some(m[alias].checksum)
    } else {
        None
    }
}

/// One feed's turn, once per run: replace the collection's checkpoint for
/// `alias` with the freshly fetched summary, and return the prefix of
/// fetched articles that are new since the previous checkpoint, in provider
/// (newest-first) order.
pub fn sync(collection: &mut Collection, alias: String, source: Source) -> (new_articles: Vec<
    Article,
>)
    requires
        old(collection).wf(),
    ensures
        final(collection).wf(),
        final(collection)@ == spec_insert(old(collection)@, alias@, source.metadata@),
        final(collection).as_map() == old(collection).as_map().insert(alias@, source.metadata@),
        new_articles@ == source.article@.take(
            spec_bound(prev_watermark(old(collection).as_map(), alias@), source.article@),
        ),
{
    let Source { article, metadata } = source;
    let prev = collection.insert(alias, metadata);
    proof {
        assert(spec_watermark(prev) == prev_watermark(old(collection).as_map(), alias@));
    }
    let bound = get_bound(prev, article.as_slice());
    proof {
        match prev_watermark(old(collection).as_map(), alias@) {
            Some(w) => lemma_boundary_props(w, article@),
            None => {},
        }
    }
    let mut new_articles = article;
    new_articles.truncate(bound);
    proof {
        assert(new_articles@ =~= source.article@.take(
            spec_bound(prev_watermark(old(collection).as_map(), alias@), source.article@),
        ));
    }
    new_articles
}

} // verus!

