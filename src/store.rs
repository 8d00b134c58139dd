//! The record store: an append-only list of torrent records, searched by
//! case-sensitive substring match on the canonical name.

use vstd::prelude::*;
use crate::text::{chars_of, contains_exec, contains_seq};

verus! {

/// One listing: canonical name, the repacker that published it, and its link.
pub struct Torrent {
    pub name: String,
    pub repacker: String,
    pub torrent: String,
}

/// A record as plain values: `(name, repacker, link)`.
pub type RecordView = (Seq<char>, Seq<char>, Seq<char>);

impl View for Torrent {
    type V = RecordView;

    open spec fn view(&self) -> RecordView {
        (self.name@, self.repacker@, self.torrent@)
    }
}

impl Torrent {
    pub fn new(name: String, repacker: String, torrent: String) -> (r: Torrent)
        ensures
            r@ == (name@, repacker@, torrent@),
    {
        Torrent { name, repacker, torrent }
    }

    pub fn duplicate(&self) -> (r: Torrent)
        ensures
            r@ == self@,
    {
        Torrent {
            name: self.name.clone(),
            repacker: self.repacker.clone(),
            torrent: self.torrent.clone(),
        }
    }
}

/// The `(repacker, link)` pairs of the records whose name contains `q`, in insertion order.
pub open spec fn found(records: Seq<RecordView>, q: Seq<char>) -> Seq<(Seq<char>, Seq<char>)>
    decreases records.len(),
{
    if records.len() == 0 {
        seq![]
    } else {
        let p = found(records.drop_last(), q);
        let r = records.last();
        if contains_seq(r.0, q) {
            p.push((r.1, r.2))
        } else {
            p
        }
    }
}

pub struct TorrentStore {
    records: Vec<Torrent>,
}

impl View for TorrentStore {
    type V = Seq<RecordView>;

    closed spec fn view(&self) -> Seq<RecordView> {
        self.records@.map_values(|t: Torrent| t@)
    }
}

impl TorrentStore {
    pub fn new() -> (r: TorrentStore)
        ensures
            r@ == Seq::<RecordView>::empty(),
    {
        let r = TorrentStore { records: Vec::new() };
        proof {
            assert(r@ =~= Seq::<RecordView>::empty());
        }
        r
    }

    pub fn len(&self) -> (r: usize)
        ensures
            r == self@.len(),
    {
        self.records.len()
    }

    /// Appends a record; there is no uniqueness check.
    pub fn insert(&mut self, t: Torrent)
        ensures
            final(self)@ == old(self)@.push(t@),
    {
        let ghost t_view = t@;
        self.records.push(t);
        proof {
            assert(self@ =~= old(self)@.push(t_view));
        }
    }

    /// Appends every record of `batch`, in order.
    pub fn insert_all(&mut self, batch: Vec<Torrent>)
        ensures
            final(self)@ == old(self)@ + batch@.map_values(|t: Torrent| t@),
    {
        let ghost start = self@;
        let mut i: usize = 0;
        while i < batch.len()
            invariant
                i <= batch@.len(),
                self@ == start + batch@.take(i as int).map_values(|t: Torrent| t@),
            decreases batch.len() - i,
        {
            let t = batch[i].duplicate();
            self.insert(t);
            proof {
                assert(batch@.take(i + 1).map_values(|t: Torrent| t@) =~= batch@.take(
                    i as int,
                ).map_values(|t: Torrent| t@).push(batch@[i as int]@));
            }
            i = i + 1;
        }
        proof {
            assert(batch@.take(batch@.len() as int) =~= batch@);
        }
    }

    /// The `(repacker, link)` pairs of every record whose name contains `query`.
    pub fn find(&self, query: &str) -> (r: Vec<(String, String)>)
        ensures
            r.deep_view() == found(self@, query@),
    {
        let q = chars_of(query);
        let mut out: Vec<(String, String)> = Vec::new();
        let mut i: usize = 0;
        while i < self.records.len()
            invariant
                i <= self@.len(),
                q@ == query@,
                out.deep_view() == found(self@.take(i as int), query@),
            decreases self.records.len() - i,
        {
            let t = &self.records[i];
            let name = chars_of(t.name.as_str());
            proof {
                assert(self@.take(i + 1).drop_last() =~= self@.take(i as int));
                assert(self@.take(i + 1).last() == t@);
            }
            if contains_exec(&name, &q) {
                let ghost before = out.deep_view();
                out.push((t.repacker.clone(), t.torrent.clone()));
                proof {
                    assert(out.deep_view() =~= before.push((t.repacker@, t.torrent@)));
                }
            }
            i = i + 1;
        }
        proof {
            assert(self@.take(self@.len() as int) =~= self@);
        }
        out
    }
}


/// What the search endpoint reports: matches, a valid "not found", or a store failure.
pub enum SearchOutcome {
    Found(Vec<(String, String)>),
    NotFound,
    StoreError(String),
}

impl SearchOutcome {
    /// Classifies the store's answer: an empty list is "not found", never an error.
    pub fn from_result(result: Result<Vec<(String, String)>, String>) -> (r: SearchOutcome)
        ensures
            match result {
                Ok(v) => if v@.len() == 0 {
                    r is NotFound
                } else {
                    r is Found && r->Found_0.deep_view() == v.deep_view()
                },
                Err(e) => r is StoreError && r->StoreError_0@ == e@,
            },
    {
        match result {
            Ok(v) => if v.len() == 0 {
                SearchOutcome::NotFound
            } else {
                SearchOutcome::Found(v)
            },
            Err(e) => SearchOutcome::StoreError(e),
        }
    }

    /// The HTTP status that signals this outcome.
    pub fn status_code(&self) -> (r: u16)
        ensures
            r == match self {
                SearchOutcome::Found(_) => 200u16,
                SearchOutcome::NotFound => 404u16,
                SearchOutcome::StoreError(_) => 500u16,
            },
    {
        match self {
            SearchOutcome::Found(_) => 200,
            SearchOutcome::NotFound => 404,
            SearchOutcome::StoreError(_) => 500,
        }
    }
}

/// The search service over the store, and the place where crawled records land.
pub struct TorrentService {
    store: TorrentStore,
}

impl View for TorrentService {
    type V = Seq<RecordView>;

    closed spec fn view(&self) -> Seq<RecordView> {
        self.store@
    }
}

impl TorrentService {
    pub fn new(store: TorrentStore) -> (r: TorrentService)
        ensures
            r@ == store@,
    {
        TorrentService { store }
    }

    /// Persists the records of one crawl; nothing is deduplicated.
    pub fn store_torrents(&mut self, torrents: Vec<Torrent>)
        ensures
            final(self)@ == old(self)@ + torrents@.map_values(|t: Torrent| t@),
    {
        self.store.insert_all(torrents);
    }

    /// The `(repacker, link)` pairs of every record whose name contains `game_name`.
    /// The in-memory store cannot fail, so the result is always `Ok`.
    pub fn search_torrent(&self, game_name: &str) -> (r: Result<Vec<(String, String)>, String>)
        ensures
            r is Ok,
            r->Ok_0.deep_view() == found(self@, game_name@),
    {
        Ok(self.store.find(game_name))
    }

    /// Searches and classifies the answer for the search endpoint.
    pub fn search(&self, game_name: &str) -> (r: SearchOutcome)
        ensures
            found(self@, game_name@).len() == 0 ==> r is NotFound,
            found(self@, game_name@).len() > 0 ==> r is Found && r->Found_0.deep_view() == found(
                self@,
                game_name@,
            ),
    {
        SearchOutcome::from_result(self.search_torrent(game_name))
    }
}

/// Searching a concatenation finds the matches of the first part, then those of the second.
pub proof fn lemma_found_concat(a: Seq<RecordView>, b: Seq<RecordView>, q: Seq<char>)
    ensures
        found(a + b, q) == found(a, q) + found(b, q),
    decreases b.len(),
{
    if b.len() == 0 {
        assert(a + b =~= a);
        assert(found(a, q) + found(b, q) =~= found(a, q));
    } else {
        lemma_found_concat(a, b.drop_last(), q);
        assert((a + b).drop_last() =~= a + b.drop_last());
        assert((a + b).last() == b.last());
        let r = b.last();
        if contains_seq(r.0, q) {
            assert(found(a, q) + found(b.drop_last(), q).push((r.1, r.2)) =~= (found(a, q)
                + found(b.drop_last(), q)).push((r.1, r.2)));
        }
    }
}

/// A query that no stored name contains finds nothing: an empty answer, not an error.
pub proof fn lemma_no_match_found_empty(records: Seq<RecordView>, q: Seq<char>)
    requires
        forall|i: int| 0 <= i < records.len() ==> !contains_seq(#[trigger] records[i].0, q),
    ensures
        found(records, q) == Seq::<(Seq<char>, Seq<char>)>::empty(),
    decreases records.len(),
{
    if records.len() > 0 {
        let d = records.drop_last();
        assert forall|i: int| 0 <= i < d.len() implies !contains_seq(#[trigger] d[i].0, q) by {
            assert(d[i] == records[i]);
        }
        lemma_no_match_found_empty(d, q);
        assert(!contains_seq(records[records.len() - 1].0, q));
    }
}

/// Crawling an unchanged listing again appends the same records again: the store
/// grows by the whole batch, and every search afterwards returns its earlier answer
/// followed by a second copy of the batch's matches.
pub proof fn lemma_recrawl_appends_duplicates(
    before: Seq<RecordView>,
    batch: Seq<RecordView>,
    q: Seq<char>,
)
    ensures
        (before + batch + batch).len() == (before + batch).len() + batch.len(),
        (before + batch + batch).subrange(0, (before + batch).len() as int) == before + batch,
        (before + batch + batch).subrange((before + batch).len() as int, (before + batch
            + batch).len() as int) == batch,
        found(before + batch + batch, q) == found(before + batch, q) + found(batch, q),
{
    lemma_found_concat(before + batch, batch, q);
    assert((before + batch + batch).subrange(0, (before + batch).len() as int) =~= before + batch);
    assert((before + batch + batch).subrange(
        (before + batch).len() as int,
        (before + batch + batch).len() as int,
    ) =~= batch);
}

} // verus!
