use vek_torrents::extract::records_from_entries;
use vek_torrents::providers::{ProviderFitGirl, ProviderGOG, ProviderOnlineFix, TorrentProvider};
use vek_torrents::store::Torrent;

fn triples(v: &[Torrent]) -> Vec<(&str, &str, &str)> {
    v.iter().map(|t| (t.name.as_str(), t.repacker.as_str(), t.torrent.as_str())).collect()
}

const FITGIRL_PAGE: &str = r#"<html><body>
<table class="table-list"><tbody>
<tr><td class="coll-1 name"><a href="/sub/17/0/" class="icon"><i class="flaticon-games"></i></a><a href="/torrent/101/Portal-2/">Portal 2 (2011) [FitGirl Repack]</a></td><td class="coll-2">5</td></tr>
<tr><td class="coll-1 name"><a href="/sub/17/0/" class="icon"><i class="flaticon-games"></i></a><a href="/torrent/102/Doom/">DOOM Eternal: Deluxe Edition</a></td><td class="coll-2">7</td></tr>
</tbody></table>
<div class="pagination"><ul><li><a href="/user/FitGirl/1/">1</a></li><li><a href="/user/FitGirl/2/">2</a></li><li class="last"><a href="/user/FitGirl/42/">42</a></li></ul></div>
</body></html>"#;

const ONLINEFIX_PAGE: &str = r#"<html><body><div id="dle-content">
<article class="news"><div class="article clr"><div class="article-content"><a href="https://online-fix.me/games/1-halo.html"><h2 class="title">Halo: Infinite по сети</h2></a></div></div></article>
<article class="news"><div class="article clr"><div class="article-content"><a href="https://online-fix.me/games/2-portal.html"><span>no title here</span></a></div></div></article>
<nav class="pagination hide_onajax"><a href="/page/2/">2</a><a href="/page/87/">87</a><a href="/page/2/">Next</a></nav>
</div></body></html>"#;

const GOG_PAGE: &str = r#"<html><body><div class="items-inner">
<div class="letter-section"><ul class="az-columns"><li><a href="https://freegogpcgames.com/123/portal/">Portal (GOG)</a></li><li><a>No link</a></li></ul></div>
<div class="letter-section"><ul class="az-columns"><li><a href="https://freegogpcgames.com/456/halo/">Halo: Combat Evolved</a></li></ul></div>
</div></body></html>"#;

#[test]
fn fitgirl_extracts_normalized_records_with_absolute_links() {
    let p = ProviderFitGirl::new();
    let records = p.extract_torrents(FITGIRL_PAGE);
    assert_eq!(
        triples(&records),
        vec![
            ("Portal 2", "FitGirl", "https://www.1337xx.to/torrent/101/Portal-2/"),
            ("DOOM Eternal", "FitGirl", "https://www.1337xx.to/torrent/102/Doom/"),
        ]
    );
}

#[test]
fn fitgirl_reads_page_count_and_urls() {
    let p = ProviderFitGirl::new();
    assert_eq!(p.discover_page_count(FITGIRL_PAGE), 42);
    assert_eq!(p.discover_page_count("<html><body>blocked</body></html>"), 1);
    assert_eq!(p.page_url(3), "https://www.1337xx.to/user/FitGirl/3");
    assert_eq!(p.page_url(120), "https://www.1337xx.to/user/FitGirl/120");
    assert_eq!(p.repacker(), "FitGirl");
}

#[test]
fn short_pages_yield_nothing() {
    assert!(ProviderFitGirl::new().extract_torrents("<html></html>").is_empty());
    assert!(ProviderGOG::new().extract_torrents("").is_empty());
    assert!(ProviderOnlineFix::new().extract_torrents("tiny").is_empty());
}

#[test]
fn unmatched_markup_yields_nothing() {
    let page = "<html><body>".to_string() + &"<p>nothing to see</p>".repeat(10) + "</body></html>";
    assert!(ProviderFitGirl::new().extract_torrents(&page).is_empty());
    assert!(ProviderOnlineFix::new().extract_torrents(&page).is_empty());
}

#[test]
fn onlinefix_extracts_titles_from_inside_links() {
    let p = ProviderOnlineFix::new();
    let records = p.extract_torrents(ONLINEFIX_PAGE);
    assert_eq!(
        triples(&records),
        vec![
            ("Halo Infinite по сети", "Online-Fix", "https://online-fix.me/games/1-halo.html"),
            ("", "Online-Fix", "https://online-fix.me/games/2-portal.html"),
        ]
    );
    assert_eq!(p.discover_page_count(ONLINEFIX_PAGE), 87);
    assert_eq!(p.page_url(2), "https://online-fix.me/page/2");
    assert_eq!(p.referer(), "https://online-fix.me/");
    assert_eq!(p.repacker(), "Online-Fix");
}

#[test]
fn gog_extracts_the_single_listing_page() {
    let p = ProviderGOG::new();
    let records = p.extract_torrents(GOG_PAGE);
    assert_eq!(
        triples(&records),
        vec![
            ("Portal GOG", "GOG", "https://freegogpcgames.com/123/portal/"),
            ("Halo Combat Evolved", "GOG", "https://freegogpcgames.com/456/halo/"),
        ]
    );
    assert_eq!(p.page_url(1), "https://freegogpcgames.com/a-z-games-list/");
    assert_eq!(p.page_url(9), "https://freegogpcgames.com/a-z-games-list/");
}

#[test]
fn entries_without_link_are_skipped() {
    let entries = vec![
        ("Game (2020) [Repack]".to_string(), Some("/a".to_string())),
        ("Other".to_string(), None),
        ("Third!".to_string(), Some("/c".to_string())),
    ];
    let records = records_from_entries(&entries, "X", "https://h");
    assert_eq!(
        triples(&records),
        vec![("Game", "X", "https://h/a"), ("Third", "X", "https://h/c")]
    );
}

#[test]
fn crawl_progress_is_tracked_per_provider() {
    let mut p = ProviderOnlineFix::new();
    assert_eq!(p.start_crawl(3), vec![1, 2, 3]);
    p.record_processed();
    assert_eq!(p.crawl_state().processed_pages(), 1);
    assert_eq!(p.crawl_state().total_pages(), 3);
    let mut f = ProviderFitGirl::new();
    assert_eq!(f.start_crawl(1), vec![1]);
    f.record_processed();
    assert_eq!(f.crawl_state().processed_pages(), 1);
    assert_eq!(f.start_crawl(2), vec![2]);
}

#[test]
fn short_pages_are_not_counted_as_processed() {
    let mut p = ProviderFitGirl::new();
    assert_eq!(p.start_crawl(2), vec![1, 2]);
    assert!(p.process_page("<html></html>").is_empty());
    assert_eq!(p.crawl_state().processed_pages(), 0);
    let records = p.process_page(FITGIRL_PAGE);
    assert_eq!(records.len(), 2);
    assert_eq!(p.crawl_state().processed_pages(), 1);
}

#[test]
fn viable_onlinefix_pages_are_counted_once() {
    let mut p = ProviderOnlineFix::new();
    assert_eq!(p.start_crawl(3), vec![1, 2, 3]);
    assert!(p.process_page("tiny").is_empty());
    assert_eq!(p.crawl_state().processed_pages(), 0);
    assert_eq!(p.process_page(ONLINEFIX_PAGE).len(), 2);
    assert_eq!(p.crawl_state().processed_pages(), 1);
    let page = "<html><body>".to_string() + &"<p>nothing to see</p>".repeat(10) + "</body></html>";
    assert!(p.process_page(&page).is_empty());
    assert_eq!(p.crawl_state().processed_pages(), 2);
}
