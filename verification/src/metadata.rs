//! The checkpoint store: per-feed metadata and the collection keyed by alias.
//!
//! A [`Collection`] is a mapping from feed alias to the [`Metadata`] recorded
//! when that feed was last synced.  It is abstracted two ways: as the ordered
//! sequence of its entries (its view, which fixes the serialized form) and as
//! the [`Map`] those entries denote (see [`Collection::as_map`]), which the
//! sync engine's contracts speak of.  Inserting for an alias always replaces
//! whatever entry was there, never merges.

use crate::json::{chars_to_string, json_collection, json_entries, json_entry, key_metadata,
    pairs_view, parse_collection_chars, parse_collection_exec, push_json_metadata,
    push_json_string, str_chars};
use crate::util::Error;
use vstd::prelude::*;

verus! {

/// A metadata entry for a feed: the last-seen state of the feed.
#[derive(Debug, PartialEq)]
pub struct Metadata {
    /// the title of this feed.
    pub title: String,
    /// the fingerprint (an md5 hex digest) that marks the last newest article.
    pub checksum: String,
}

/// The mathematical value of a [`Metadata`]: both fields as character
/// sequences.
pub ghost struct MetadataV {
    pub title: Seq<char>,
    pub checksum: Seq<char>,
}

impl View for Metadata {
    type V = MetadataV;

    open spec fn view(&self) -> MetadataV {
        MetadataV { title: self.title@, checksum: self.checksum@ }
    }
}

/// The map denoted by a sequence of `(alias, metadata)` entries; a later
/// entry for the same alias wins.
pub open spec fn entries_map(s: Seq<(Seq<char>, MetadataV)>) -> Map<Seq<char>, MetadataV>
    decreases s.len(),
{
    if s.len() == 0 {
        Map::empty()
    } else {
        entries_map(s.drop_last()).insert(s.last().0, s.last().1)
    }
}

/// The index of the first entry carrying key `k`, or `-1` when none does.
pub open spec fn index_of_key(s: Seq<(Seq<char>, MetadataV)>, k: Seq<char>) -> int
    decreases s.len(),
{
    if s.len() == 0 {
        -1
    } else if s[0].0 == k {
        0
    } else {
        let r = index_of_key(s.drop_first(), k);
        if r == -1 {
            -1
        } else {
            r + 1
        }
    }
}

/// Replacing the first entry keyed `k` with `(k, v)`, or appending `(k, v)`
/// when no entry carries `k`.
pub open spec fn spec_insert(
    s: Seq<(Seq<char>, MetadataV)>,
    k: Seq<char>,
    v: MetadataV,
) -> Seq<(Seq<char>, MetadataV)> {
    let i = index_of_key(s, k);
    if i == -1 {
        s.push((k, v))
    } else {
        s.update(i, (k, v))
    }
}

/// `index_of_key` finds exactly the keys present: `-1` only when absent,
/// otherwise the first index holding `k`.
pub proof fn lemma_index_of_key(s: Seq<(Seq<char>, MetadataV)>, k: Seq<char>)
    ensures
        index_of_key(s, k) == -1 <==> (forall|i: int| 0 <= i < s.len() ==> (#[trigger] s[i]).0 != k),
        index_of_key(s, k) != -1 ==> {
            let i = index_of_key(s, k);
            &&& 0 <= i < s.len()
            &&& s[i].0 == k
            &&& forall|j: int| 0 <= j < i ==> (#[trigger] s[j]).0 != k
        },
    decreases s.len(),
{
    if s.len() > 0 {
        lemma_index_of_key(s.drop_first(), k);
        let t = s.drop_first();
        assert(forall|i: int| 1 <= i < s.len() ==> (#[trigger] s[i]) == t[i - 1]);
    }
}

/// The domain of `entries_map` is the set of keys that occur in the entries.
pub proof fn lemma_entries_map_contains(s: Seq<(Seq<char>, MetadataV)>, k: Seq<char>)
    ensures
        entries_map(s).contains_key(k) <==> (exists|i: int|
            0 <= i < s.len() && (#[trigger] s[i]).0 == k),
    decreases s.len(),
{
    if s.len() > 0 {
        lemma_entries_map_contains(s.drop_last(), k);
        if entries_map(s).contains_key(k) {
            if s.last().0 == k {
                assert(s[s.len() - 1].0 == k);
            } else {
                let i = choose|i: int| 0 <= i < s.len() - 1 && (#[trigger] s.drop_last()[i]).0 == k;
                assert(s[i].0 == k);
            }
        }
        if exists|i: int| 0 <= i < s.len() && (#[trigger] s[i]).0 == k {
            let i = choose|i: int| 0 <= i < s.len() && (#[trigger] s[i]).0 == k;
            if i < s.len() - 1 {
                assert(s.drop_last()[i].0 == k);
            }
        }
    }
}

/// An entry whose key occurs nowhere later in the sequence gives that key's
/// value in `entries_map`.
pub proof fn lemma_entries_map_index(s: Seq<(Seq<char>, MetadataV)>, i: int)
    requires
        0 <= i < s.len(),
        forall|j: int| i < j < s.len() ==> (#[trigger] s[j]).0 != s[i].0,
    ensures
        entries_map(s).contains_key(s[i].0),
        entries_map(s)[s[i].0] == s[i].1,
    decreases s.len(),
{
    if i == s.len() - 1 {
    } else {
        assert(forall|j: int|
            i < j < s.drop_last().len() ==> (#[trigger] s.drop_last()[j]).0 != s.drop_last()[i].0);
        lemma_entries_map_index(s.drop_last(), i);
    }
}

/// Updating the entry at `i` while keeping its key is, at the map level, an
/// insert for that key — provided the key occurs nowhere later.
pub proof fn lemma_entries_map_update(s: Seq<(Seq<char>, MetadataV)>, i: int, v: MetadataV)
    requires
        0 <= i < s.len(),
        forall|j: int| i < j < s.len() ==> (#[trigger] s[j]).0 != s[i].0,
    ensures
        entries_map(s.update(i, (s[i].0, v))) == entries_map(s).insert(s[i].0, v),
    decreases s.len(),
{
    let k = s[i].0;
    let t = s.update(i, (k, v));
    if i == s.len() - 1 {
        assert(t.drop_last() =~= s.drop_last());
        assert(entries_map(t) =~= entries_map(s).insert(k, v));
    } else {
        assert(forall|j: int|
            i < j < s.drop_last().len() ==> (#[trigger] s.drop_last()[j]).0 != s.drop_last()[i].0);
        lemma_entries_map_update(s.drop_last(), i, v);
        assert(t.drop_last() =~= s.drop_last().update(i, (k, v)));
        assert(t.last() == s.last());
        assert(entries_map(t) == entries_map(s.drop_last().update(i, (k, v))).insert(
            s.last().0,
            s.last().1,
        ));
        assert(s.last().0 != k);
        assert(entries_map(s.drop_last()).insert(k, v).insert(s.last().0, s.last().1)
            =~= entries_map(s.drop_last()).insert(s.last().0, s.last().1).insert(k, v));
        assert(entries_map(t) =~= entries_map(s).insert(k, v));
    }
}

/// A collection that maps alias to metadata for each feed.
pub struct Collection {
    metadata: Vec<(String, Metadata)>,
}

impl View for Collection {
    type V = Seq<(Seq<char>, MetadataV)>;

    closed spec fn view(&self) -> Seq<(Seq<char>, MetadataV)> {
        self.metadata@.map_values(|p: (String, Metadata)| (p.0@, p.1@))
    }
}

impl Collection {
    /// No two entries carry the same alias.
    pub open spec fn wf(&self) -> bool {
        forall|i: int, j: int|
            0 <= i < j < self@.len() ==> (#[trigger] self@[i]).0 != (#[trigger] self@[j]).0
    }

    /// The mapping from alias to metadata that the entries denote.
    pub open spec fn as_map(&self) -> Map<Seq<char>, MetadataV> {
        entries_map(self@)
    }

    /// An empty collection.
    pub fn new() -> (c: Collection)
        ensures
            c@ == Seq::<(Seq<char>, MetadataV)>::empty(),
            c.wf(),
    {
        Collection { metadata: Vec::new() }
    }

    /// How many feeds have an entry.
    pub fn len(&self) -> (n: usize)
        ensures
            n == self@.len(),
    {
        self.metadata.len()
    }

    /// The entry at a position, for callers that walk the collection in its
    /// stored order.
    pub fn entry_at(&self, i: usize) -> (r: (&String, &Metadata))
        requires
            i < self@.len(),
        ensures
            r.0@ == self@[i as int].0,
            r.1@ == self@[i as int].1,
    {
        let p = &self.metadata[i];
        (&p.0, &p.1)
    }

    /// Record `metadata` as the checkpoint for `alias`, replacing — never
    /// merging with — any entry already stored for that alias, and hand back
    /// the replaced entry.
    pub fn insert(&mut self, alias: String, metadata: Metadata) -> (prev: Option<Metadata>)
        requires
            old(self).wf(),
        ensures
            final(self).wf(),
            final(self)@ == spec_insert(old(self)@, alias@, metadata@),
            final(self).as_map() == old(self).as_map().insert(alias@, metadata@),
            match prev {
                Some(m) => old(self).as_map().contains_key(alias@) && m@ == old(
                    self,
                ).as_map().index(alias@),
                None => !old(self).as_map().contains_key(alias@),
            },
    {
        let ghost s0 = self@;
        let mut i: usize = 0;
        while i < self.metadata.len()
            invariant
                *self == *old(self),
                s0 == self@,
                old(self).wf(),
                i <= self@.len(),
                forall|j: int| 0 <= j < i ==> (#[trigger] self@[j]).0 != alias@,
            decreases self@.len() - i,
        {
            if self.metadata[i].0 == alias {
                proof {
                    let ii = i as int;
                    assert(s0[ii].0 == alias@);
                    assert forall|j: int| ii < j < s0.len() implies (#[trigger] s0[j]).0
                        != s0[ii].0 by {
                        assert((s0[ii]).0 != (s0[j]).0);
                    }
                    lemma_index_of_key(s0, alias@);
                    let idx = index_of_key(s0, alias@);
                    if idx == -1 {
                        assert(s0[ii].0 != alias@);
                    } else if idx < ii {
                        assert(s0[idx].0 == alias@);
                    } else if idx > ii {
                        assert(s0[ii].0 != alias@);
                    }
                    assert(idx == ii);
                    lemma_entries_map_index(s0, ii);
                    lemma_entries_map_update(s0, ii, metadata@);
                    lemma_entries_map_contains(s0, alias@);
                }
                let old_pair = self.metadata.remove(i);
                self.metadata.insert(i, (alias, metadata));
                proof {
                    assert(self@ =~= s0.update(i as int, (alias@, metadata@)));
                    assert(s0.update(i as int, (alias@, metadata@)) == spec_insert(
                        s0,
                        alias@,
                        metadata@,
                    ));
                }
                return Some(old_pair.1);
            }
            i += 1;
        }
        proof {
            lemma_index_of_key(s0, alias@);
            lemma_entries_map_contains(s0, alias@);
        }
        self.metadata.push((alias, metadata));
        proof {
            assert(self@ =~= s0.push((alias@, metadata@)));
            assert(self@.drop_last() =~= s0);
            assert(final(self).as_map() =~= old(self).as_map().insert(alias@, metadata@));
        }
        None
    }

    /// Look up the checkpoint stored for `alias`.
    pub fn get(&self, alias: &str) -> (r: Option<&Metadata>)
        requires
            self.wf(),
        ensures
            match r {
                Some(m) => self.as_map().contains_key(alias@) && m@ == self.as_map()[alias@],
                None => !self.as_map().contains_key(alias@),
            },
    {
        let key = String::from_str(alias);
        let mut i: usize = 0;
        while i < self.metadata.len()
            invariant
                self.wf(),
                key@ == alias@,
                i <= self@.len(),
                forall|j: int| 0 <= j < i ==> (#[trigger] self@[j]).0 != alias@,
            decreases self@.len() - i,
        {
            if self.metadata[i].0 == key {
                proof {
                    lemma_entries_map_index(self@, i as int);
                }
                return Some(&self.metadata[i].1);
            }
            i += 1;
        }
        proof {
            lemma_entries_map_contains(self@, alias@);
        }
        None
    }
}

impl Collection {
    /// Serialize `self` into the checkpoint document.  Serialization of
    /// well-formed in-memory data cannot fail, so the result is always `Ok`;
    /// the `Result` stands for the dump step's place in the error taxonomy.
    pub fn put(self) -> (r: Result<String, Error>)
        ensures
            r is Ok,
            r->Ok_0@ == json_collection(self@),
    {
        let mut out: Vec<char> = Vec::new();
        out.push('{');
        push_json_string(&mut out, "metadata");
        proof {
            reveal_strlit("metadata");
            assert("metadata"@ =~= key_metadata());
        }
        out.push(':');
        out.push('{');
        let ghost pre = out@;
        let n = self.metadata.len();
        let mut i: usize = 0;
        while i < n
            invariant
                n == self@.len(),
                i <= n,
                pre == seq!['{'] + crate::json::json_string(key_metadata()) + seq![':'] + seq![
                    '{',
                ],
                out@ == pre + json_entries(self@.take(i as int)),
            decreases n - i,
        {
            if i > 0 {
                out.push(',');
            }
            let p = &self.metadata[i];
            push_json_string(&mut out, p.0.as_str());
            out.push(':');
            push_json_metadata(&mut out, &p.1);
            proof {
                let t = self@.take(i as int + 1);
                assert(self@[i as int] == (self.metadata@[i as int].0@, self.metadata@[
                    i as int].1@));
                assert(t.drop_last() =~= self@.take(i as int));
                assert(t.last() == self@[i as int]);
                if i == 0 {
                    assert(json_entries(t) == json_entry(t[0]));
                    assert(t[0] == self@[0]);
                } else {
                    assert(json_entries(t) == json_entries(self@.take(i as int)) + seq![',']
                        + json_entry(self@[i as int]));
                }
                assert(out@ =~= pre + json_entries(self@.take(i as int + 1)));
            }
            i += 1;
        }
        out.push('}');
        out.push('}');
        proof {
            assert(self@.take(n as int) =~= self@);
            assert(out@ =~= json_collection(self@));
        }
        Ok(chars_to_string(out))
    }
}

/// The collection built by recording parsed entries in document order: a
/// later entry for the same alias replaces the earlier one.
pub open spec fn collection_from_entries(es: Seq<(Seq<char>, MetadataV)>) -> Seq<
    (Seq<char>, MetadataV),
>
    decreases es.len(),
{
    if es.len() == 0 {
        Seq::empty()
    } else {
        spec_insert(collection_from_entries(es.drop_last()), es.last().0, es.last().1)
    }
}

/// Try deserializing a checkpoint document into a `Collection`.  Exactly
/// the documents accepted by [`parse_collection_chars`] parse; everything
/// else is a `ParseFailed`, which the caller treats as "start from empty".
pub fn parse(s: &str) -> (r: Result<Collection, Error>)
    ensures
        match parse_collection_chars(s@) {
            Some(es) => {
                &&& r is Ok
                &&& r->Ok_0@ == collection_from_entries(es)
                &&& r->Ok_0.wf()
            },
            None => r == Err::<Collection, Error>(Error::ParseFailed),
        },
{
    let chars = str_chars(s);
    match parse_collection_exec(&chars) {
        None => Err(Error::ParseFailed),
        Some(pairs) => {
            let ghost orig = pairs_view(pairs@);
            let mut pairs = pairs;
            let mut c = Collection::new();
            let ghost k: int = 0;
            proof {
                assert(orig.take(0) =~= Seq::<(Seq<char>, MetadataV)>::empty());
                assert(pairs_view(pairs@) =~= orig.skip(0));
            }
            while pairs.len() > 0
                invariant
                    0 <= k <= orig.len(),
                    pairs_view(pairs@) == orig.skip(k),
                    c@ == collection_from_entries(orig.take(k)),
                    c.wf(),
                decreases pairs@.len(),
            {
                proof {
                    assert(pairs_view(pairs@).len() == pairs@.len());
                    assert(orig.skip(k)[0] == orig[k]);
                    assert(pairs_view(pairs@)[0] == (pairs@[0].0@, pairs@[0].1@));
                }
                let ghost pv0 = pairs@;
                let p = pairs.remove(0);
                c.insert(p.0, p.1);
                proof {
                    assert forall|j: int|
                        0 <= j < pairs@.len() implies pairs_view(pairs@)[j] == orig.skip(
                        k + 1,
                    )[j] by {
                        assert(pairs@[j] == pv0[j + 1]);
                        assert(pairs_view(pv0)[j + 1] == orig.skip(k)[j + 1]);
                        assert(orig.skip(k)[j + 1] == orig[k + 1 + j]);
                        assert(orig.skip(k + 1)[j] == orig[k + 1 + j]);
                    }
                    assert(pairs_view(pairs@) =~= orig.skip(k + 1));
                    let t = orig.take(k + 1);
                    assert(t.drop_last() =~= orig.take(k));
                    assert(t.last() == orig[k]);
                    assert(c@ == collection_from_entries(orig.take(k + 1)));
                    k = k + 1;
                }
            }
            proof {
                assert(orig.take(k) =~= orig);
            }
            Ok(c)
        },
    }
}

/// Recording entries whose aliases are pairwise distinct, in order,
/// reproduces exactly that entry sequence.
proof fn lemma_collection_from_entries_unique(es: Seq<(Seq<char>, MetadataV)>)
    requires
        forall|i: int, j: int|
            0 <= i < j < es.len() ==> (#[trigger] es[i]).0 != (#[trigger] es[j]).0,
    ensures
        collection_from_entries(es) == es,
    decreases es.len(),
{
    if es.len() > 0 {
        let u = es.drop_last();
        assert(forall|i: int, j: int|
            0 <= i < j < u.len() ==> (#[trigger] u[i]).0 != (#[trigger] u[j]).0);
        lemma_collection_from_entries_unique(u);
        lemma_index_of_key(u, es.last().0);
        assert(forall|i: int| 0 <= i < u.len() ==> (#[trigger] u[i]).0 != es.last().0);
        assert(index_of_key(u, es.last().0) == -1);
        assert((es.last().0, es.last().1) == es.last());
        assert(u.push(es.last()) =~= es);
    }
}

/// Round trip of the checkpoint store: the document that [`Collection::put`]
/// writes for a well-formed collection is read back by [`parse`] as exactly
/// that collection — the same entries, in the same order, nothing merged or
/// lost.
pub proof fn lemma_store_round_trip(es: Seq<(Seq<char>, MetadataV)>)
    requires
        forall|i: int, j: int|
            0 <= i < j < es.len() ==> (#[trigger] es[i]).0 != (#[trigger] es[j]).0,
    ensures
        parse_collection_chars(json_collection(es)) == Some(es),
        collection_from_entries(es) == es,
{
    crate::json::lemma_document_round_trip(es);
    lemma_collection_from_entries_unique(es);
}

/// Checkpoint replace semantics: recording `s1` and then `s2` for the same
/// alias leaves exactly `s2` as that alias's checkpoint — a replacement,
/// never a merge of the two.
pub proof fn lemma_checkpoint_replace(
    m: Map<Seq<char>, MetadataV>,
    alias: Seq<char>,
    s1: MetadataV,
    s2: MetadataV,
)
    ensures
        m.insert(alias, s1).insert(alias, s2) == m.insert(alias, s2),
        m.insert(alias, s1).insert(alias, s2)[alias] == s2,
{
    assert(m.insert(alias, s1).insert(alias, s2) =~= m.insert(alias, s2));
}

impl Default for Collection {
    /// The empty collection.
    fn default() -> (c: Collection)
        ensures
            c@ == Seq::<(Seq<char>, MetadataV)>::empty(),
            c.wf(),
    {
        Collection::new()
    }
}

} // verus!
