//! The provider adapters: for each catalog site, where its listing pages are,
//! how many there are, and which records a fetched page yields.

use vstd::prelude::*;
use crate::crawl::{dispatch_pages, max_u32, page_count_from_label, page_count_of, CrawlState};
use crate::extract::{
    build_records, fill_missing_titles, records_from_entries, with_default_titles, records_view, select_first_text, select_links,
    select_titled_links, selected_first_text, selected_links, selected_titled_links,
};
use crate::store::{RecordView, Torrent};
use crate::text::{chars_of, decimal, string_from_chars, with_decimal};
use vstd::string::StringSliceAdditionalSpecFns;

verus! {

/// Pages shorter than this many bytes are placeholders or soft blocks: they
/// yield no records.
pub const MIN_PAGE_BYTES: usize = 100;

/// The records that a provider reads from a fetched page: none from a page
/// below the viability threshold, else those built from the selected entries.
pub open spec fn page_records(content: &str, entries: Seq<(Seq<char>, Option<Seq<char>>)>, repacker: Seq<char>, link_prefix: Seq<char>) -> Seq<RecordView> {
    if content.spec_bytes().len() < MIN_PAGE_BYTES {
        seq![]
    } else {
        build_records(entries, repacker, link_prefix)
    }
}

/// An external catalog site that listings are scraped from.
pub trait TorrentProvider {
    /// The label stored as the repacker of each record.
    spec fn repacker_name(&self) -> Seq<char>;

    /// The address of listing page `page`.
    spec fn page_address(&self, page: u32) -> Seq<char>;

    /// The records that the fetched markup `content` of a listing page yields.
    spec fn page_yield(&self, content: &str) -> Seq<RecordView>;

    fn repacker(&self) -> (r: String)
        ensures
            r@ == self.repacker_name(),
    ;

    fn page_url(&self, page: u32) -> (r: String)
        ensures
            r@ == self.page_address(page),
    ;

    fn extract_torrents(&self, content: &str) -> (r: Vec<Torrent>)
        ensures
            records_view(r@) == self.page_yield(content),
    ;
}

// ---------------------------------------------------------------------------
// FitGirl, on 1337x

pub struct ProviderFitGirl {
    crawl: CrawlState,
}

impl ProviderFitGirl {
    pub closed spec fn progress(self) -> CrawlState {
        self.crawl
    }

    pub fn new() -> (r: ProviderFitGirl)
        ensures
            r.progress().total() == 0,
            r.progress().mark() == 0,
            r.progress().processed() == 0,
            r.progress().wf(),
    {
        ProviderFitGirl { crawl: CrawlState::new() }
    }

    pub fn crawl_state(&self) -> (r: &CrawlState)
        ensures
            *r == self.progress(),
    {
        &self.crawl
    }

    /// The page count shown by the pagination of the index page; 1 if it cannot be read.
    pub fn discover_page_count(&self, index_html: &str) -> (r: u32)
        ensures
            r == page_count_of(
                selected_first_text(index_html@, ".pagination > ul > li:last-child > a"@),
            ),
    {
        page_count_from_label(select_first_text(index_html, ".pagination > ul > li:last-child > a"))
    }

    /// Records the discovered page count and hands out the pages not yet dispatched.
    pub fn start_crawl(&mut self, total: u32) -> (r: Vec<u32>)
        requires
            old(self).progress().wf(),
        ensures
            r@ == dispatch_pages(old(self).progress().mark(), total),
            final(self).progress().total() == total,
            final(self).progress().mark() == max_u32(old(self).progress().mark(), total),
            final(self).progress().processed() == old(self).progress().processed(),
            final(self).progress().wf(),
    {
        self.crawl.start_crawl(total)
    }

    /// Counts one more page whose extraction has completed.
    pub fn record_processed(&mut self)
        requires
            old(self).progress().wf(),
            old(self).progress().processed() < old(self).progress().mark(),
        ensures
            final(self).progress().processed() == old(self).progress().processed() + 1,
            final(self).progress().total() == old(self).progress().total(),
            final(self).progress().mark() == old(self).progress().mark(),
            final(self).progress().wf(),
    {
        self.crawl.record_processed();
    }

    /// Extracts the records of a fetched listing page and counts the page as
    /// processed; a page below the viability threshold yields nothing and is not
    /// counted.
    pub fn process_page(&mut self, content: &str) -> (r: Vec<Torrent>)
        requires
            old(self).progress().wf(),
            content.spec_bytes().len() >= MIN_PAGE_BYTES ==> old(self).progress().processed()
                < old(self).progress().mark(),
        ensures
            records_view(r@) == final(self).page_yield(content),
            final(self).progress().processed() == old(self).progress().processed() + (if content.spec_bytes().len()
                < MIN_PAGE_BYTES {
                0int
            } else {
                1int
            }),
            final(self).progress().total() == old(self).progress().total(),
            final(self).progress().mark() == old(self).progress().mark(),
            final(self).progress().wf(),
    {
        let records = self.extract_torrents(content);
        if content.as_bytes().len() >= MIN_PAGE_BYTES {
            self.crawl.record_processed();
        }
        records
    }
}

impl TorrentProvider for ProviderFitGirl {
    open spec fn repacker_name(&self) -> Seq<char> {
        "FitGirl"@
    }

    open spec fn page_address(&self, page: u32) -> Seq<char> {
        "https://www.1337xx.to/user/FitGirl/"@ + decimal(page as nat)
    }

    open spec fn page_yield(&self, content: &str) -> Seq<RecordView> {
        page_records(
            content,
            selected_links(content@, ".table-list tbody tr td.coll-1.name a[href]:nth-of-type(2)"@),
            "FitGirl"@,
            "https://www.1337xx.to"@,
        )
    }

    fn repacker(&self) -> (r: String) {
        string_from_chars(&chars_of("FitGirl"))
    }

    fn page_url(&self, page: u32) -> (r: String) {
        with_decimal("https://www.1337xx.to/user/FitGirl/", page as u64)
    }

    fn extract_torrents(&self, content: &str) -> (r: Vec<Torrent>) {
        if content.as_bytes().len() < MIN_PAGE_BYTES {
            let none: Vec<Torrent> = Vec::new();
            proof {
                assert(records_view(none@) =~= Seq::<RecordView>::empty());
            }
            return none;
        }
        let entries = select_links(content, ".table-list tbody tr td.coll-1.name a[href]:nth-of-type(2)");
        records_from_entries(&entries, "FitGirl", "https://www.1337xx.to")
    }
}

// ---------------------------------------------------------------------------
// GOG games, one A-Z page

pub struct ProviderGOG {}

impl ProviderGOG {
    pub fn new() -> (r: ProviderGOG) {
        ProviderGOG {}
    }
}

impl TorrentProvider for ProviderGOG {
    open spec fn repacker_name(&self) -> Seq<char> {
        "GOG"@
    }

    /// The catalog is one page, whatever the page number.
    open spec fn page_address(&self, page: u32) -> Seq<char> {
        "https://freegogpcgames.com/a-z-games-list/"@
    }

    open spec fn page_yield(&self, content: &str) -> Seq<RecordView> {
        page_records(
            content,
            selected_links(content@, ".items-inner > .letter-section > .az-columns > li > a"@),
            "GOG"@,
            ""@,
        )
    }

    fn repacker(&self) -> (r: String) {
        string_from_chars(&chars_of("GOG"))
    }

    fn page_url(&self, page: u32) -> (r: String) {
        string_from_chars(&chars_of("https://freegogpcgames.com/a-z-games-list/"))
    }

    fn extract_torrents(&self, content: &str) -> (r: Vec<Torrent>) {
        if content.as_bytes().len() < MIN_PAGE_BYTES {
            let none: Vec<Torrent> = Vec::new();
            proof {
                assert(records_view(none@) =~= Seq::<RecordView>::empty());
            }
            return none;
        }
        let entries = select_links(content, ".items-inner > .letter-section > .az-columns > li > a");
        records_from_entries(&entries, "GOG", "")
    }
}

// ---------------------------------------------------------------------------
// Online-Fix, behind a login

pub struct ProviderOnlineFix {
    crawl: CrawlState,
}

impl ProviderOnlineFix {
    pub closed spec fn progress(self) -> CrawlState {
        self.crawl
    }

    pub fn new() -> (r: ProviderOnlineFix)
        ensures
            r.progress().total() == 0,
            r.progress().mark() == 0,
            r.progress().processed() == 0,
            r.progress().wf(),
    {
        ProviderOnlineFix { crawl: CrawlState::new() }
    }

    pub fn crawl_state(&self) -> (r: &CrawlState)
        ensures
            *r == self.progress(),
    {
        &self.crawl
    }

    /// The Referer that every request to the site carries.
    pub fn referer(&self) -> (r: String)
        ensures
            r@ == "https://online-fix.me/"@,
    {
        string_from_chars(&chars_of("https://online-fix.me/"))
    }

    /// The page count shown by the pagination of the index page; 1 if it cannot be read.
    pub fn discover_page_count(&self, index_html: &str) -> (r: u32)
        ensures
            r == page_count_of(
                selected_first_text(
                    index_html@,
                    "nav.pagination.hide_onajax a:nth-last-of-type(2)"@,
                ),
            ),
    {
        page_count_from_label(
            select_first_text(index_html, "nav.pagination.hide_onajax a:nth-last-of-type(2)"),
        )
    }

    /// Records the discovered page count and hands out the pages not yet dispatched.
    pub fn start_crawl(&mut self, total: u32) -> (r: Vec<u32>)
        requires
            old(self).progress().wf(),
        ensures
            r@ == dispatch_pages(old(self).progress().mark(), total),
            final(self).progress().total() == total,
            final(self).progress().mark() == max_u32(old(self).progress().mark(), total),
            final(self).progress().processed() == old(self).progress().processed(),
            final(self).progress().wf(),
    {
        self.crawl.start_crawl(total)
    }

    /// Counts one more page whose extraction has completed.
    pub fn record_processed(&mut self)
        requires
            old(self).progress().wf(),
            old(self).progress().processed() < old(self).progress().mark(),
        ensures
            final(self).progress().processed() == old(self).progress().processed() + 1,
            final(self).progress().total() == old(self).progress().total(),
            final(self).progress().mark() == old(self).progress().mark(),
            final(self).progress().wf(),
    {
        self.crawl.record_processed();
    }

    /// Extracts the records of a fetched listing page and counts the page as
    /// processed; a page below the viability threshold yields nothing and is not
    /// counted.
    pub fn process_page(&mut self, content: &str) -> (r: Vec<Torrent>)
        requires
            old(self).progress().wf(),
            content.spec_bytes().len() >= MIN_PAGE_BYTES ==> old(self).progress().processed()
                < old(self).progress().mark(),
        ensures
            records_view(r@) == final(self).page_yield(content),
            final(self).progress().processed() == old(self).progress().processed() + (if content.spec_bytes().len()
                < MIN_PAGE_BYTES {
                0int
            } else {
                1int
            }),
            final(self).progress().total() == old(self).progress().total(),
            final(self).progress().mark() == old(self).progress().mark(),
            final(self).progress().wf(),
    {
        let records = self.extract_torrents(content);
        if content.as_bytes().len() >= MIN_PAGE_BYTES {
            self.crawl.record_processed();
        }
        records
    }
}

impl TorrentProvider for ProviderOnlineFix {
    open spec fn repacker_name(&self) -> Seq<char> {
        "Online-Fix"@
    }

    open spec fn page_address(&self, page: u32) -> Seq<char> {
        "https://online-fix.me/page/"@ + decimal(page as nat)
    }

    open spec fn page_yield(&self, content: &str) -> Seq<RecordView> {
        page_records(
            content,
            with_default_titles(
                selected_titled_links(
                    content@,
                    "article.news > .article.clr > .article-content > a"@,
                    "h2.title"@,
                ),
            ),
            "Online-Fix"@,
            ""@,
        )
    }

    fn repacker(&self) -> (r: String) {
        string_from_chars(&chars_of("Online-Fix"))
    }

    fn page_url(&self, page: u32) -> (r: String) {
        with_decimal("https://online-fix.me/page/", page as u64)
    }

    fn extract_torrents(&self, content: &str) -> (r: Vec<Torrent>) {
        if content.as_bytes().len() < MIN_PAGE_BYTES {
            let none: Vec<Torrent> = Vec::new();
            proof {
                assert(records_view(none@) =~= Seq::<RecordView>::empty());
            }
            return none;
        }
        let entries = select_titled_links(
            content,
            "article.news > .article.clr > .article-content > a",
            "h2.title",
        );
        records_from_entries(&fill_missing_titles(entries), "Online-Fix", "")
    }
}

} // verus!
