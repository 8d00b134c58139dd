//! Content extraction: CSS selection on fetched listing markup (through the
//! scraper crate) and the turning of raw `(title, href)` pairs into records.

use vstd::prelude::*;
use crate::normalize::{format_name, normalize};
use crate::store::{RecordView, Torrent};
use crate::text::{chars_of, string_from_chars};

verus! {

/// For each element of `html` that `selector` matches, in document order: its
/// text and its `href` attribute.
pub uninterp spec fn selected_links(html: Seq<char>, selector: Seq<char>) -> Seq<
    (Seq<char>, Option<Seq<char>>),
>;

/// For each element of `html` that `link_selector` matches, in document order: the
/// text of its first descendant that `title_selector` matches, if there is one, and
/// its `href` attribute.
pub uninterp spec fn selected_titled_links(
    html: Seq<char>,
    link_selector: Seq<char>,
    title_selector: Seq<char>,
) -> Seq<(Option<Seq<char>>, Option<Seq<char>>)>;

/// The first text node of the first element of `html` that `selector` matches.
pub uninterp spec fn selected_first_text(html: Seq<char>, selector: Seq<char>) -> Option<
    Seq<char>,
>;

/// Relies on scraper's `Html::parse_document`, `Selector::parse` and `Html::select`:
/// the matches in document order, each with `ElementRef::text` joined and
/// `ElementRef::attr("href")`; a selector that does not parse matches nothing.
#[verifier::external_body]
pub(crate) fn select_links(html: &str, selector: &str) -> (r: Vec<(String, Option<String>)>)
    ensures
        r.deep_view() == selected_links(html@, selector@),
{
    let doc = scraper::Html::parse_document(html);
    match scraper::Selector::parse(selector) {
        Ok(sel) => doc.select(&sel).map(
            |e| (e.text().collect::<String>(), e.attr("href").map(String::from)),
        ).collect(),
        Err(_) => Vec::new(),
    }
}

/// Relies on scraper's `Html::parse_document`, `Selector::parse`, `Html::select` and
/// `ElementRef::select`: for each link match in document order, the joined text of
/// its first title match, if any, and its `href` attribute.
#[verifier::external_body]
pub(crate) fn select_titled_links(html: &str, link_selector: &str, title_selector: &str) -> (r: Vec<
    (Option<String>, Option<String>),
>)
    ensures
        r.deep_view() == selected_titled_links(html@, link_selector@, title_selector@),
{
    let doc = scraper::Html::parse_document(html);
    match (scraper::Selector::parse(link_selector), scraper::Selector::parse(title_selector)) {
        (Ok(link), Ok(title)) => doc.select(&link).map(
            |e| (
                e.select(&title).next().map(|t| t.text().collect::<String>()),
                e.attr("href").map(String::from),
            ),
        ).collect(),
        _ => Vec::new(),
    }
}

/// Relies on scraper's `Html::parse_document`, `Selector::parse` and `Html::select`:
/// the first text node of the first match, if there is one.
#[verifier::external_body]
pub(crate) fn select_first_text(html: &str, selector: &str) -> (r: Option<String>)
    ensures
        r.deep_view() == selected_first_text(html@, selector@),
{
    let doc = scraper::Html::parse_document(html);
    match scraper::Selector::parse(selector) {
        Ok(sel) => doc.select(&sel).next().and_then(|e| e.text().next()).map(String::from),
        Err(_) => None,
    }
}

/// The records built from raw `(title, href)` pairs: entries without a link are
/// skipped, titles are normalised, and `link_prefix` is put before each link.
pub open spec fn build_records(
    entries: Seq<(Seq<char>, Option<Seq<char>>)>,
    repacker: Seq<char>,
    link_prefix: Seq<char>,
) -> Seq<RecordView>
    decreases entries.len(),
{
    if entries.len() == 0 {
        seq![]
    } else {
        let p = build_records(entries.drop_last(), repacker, link_prefix);
        let e = entries.last();
        match e.1 {
            Some(href) => p.push((normalize(e.0), repacker, link_prefix + href)),
            None => p,
        }
    }
}

pub open spec fn records_view(v: Seq<Torrent>) -> Seq<RecordView> {
    v.map_values(|t: Torrent| t@)
}

fn concat_str(a: &str, b: &String) -> (r: String)
    ensures
        r@ == a@ + b@,
{
    let mut v = chars_of(a);
    let w = chars_of(b.as_str());
    let mut i: usize = 0;
    let ghost start = v@;
    while i < w.len()
        invariant
            i <= w@.len(),
            v@ == start + w@.take(i as int),
        decreases w.len() - i,
    {
        v.push(w[i]);
        proof {
            assert(start + w@.take(i + 1) =~= (start + w@.take(i as int)).push(w@[i as int]));
        }
        i = i + 1;
    }
    proof {
        assert(w@.take(w@.len() as int) =~= w@);
    }
    string_from_chars(&v)
}

/// Builds the records of one listing page from its raw `(title, href)` pairs.
pub fn records_from_entries(
    entries: &Vec<(String, Option<String>)>,
    repacker: &str,
    link_prefix: &str,
) -> (r: Vec<Torrent>)
    ensures
        records_view(r@) == build_records(entries.deep_view(), repacker@, link_prefix@),
{
    let mut out: Vec<Torrent> = Vec::new();
    let mut i: usize = 0;
    while i < entries.len()
        invariant
            i <= entries@.len(),
            records_view(out@) == build_records(entries.deep_view().take(i as int), repacker@, link_prefix@),
        decreases entries.len() - i,
    {
        let ghost ev = entries.deep_view();
        proof {
            assert(ev.take(i + 1).drop_last() =~= ev.take(i as int));
            assert(ev.take(i + 1).last() == ev[i as int]);
        }
        let (title, href) = &entries[i];
        match href {
            Some(h) => {
                let name = format_name(title.clone());
                let link = concat_str(link_prefix, h);
                let ghost before = records_view(out@);
                let t = Torrent::new(name, string_from_chars(&chars_of(repacker)), link);
                out.push(t);
                proof {
                    assert(records_view(out@) =~= before.push(t@));
                }
            },
            None => {},
        }
        i = i + 1;
    }
    proof {
        assert(entries.deep_view().take(entries@.len() as int) =~= entries.deep_view());
    }
    out
}


/// Entries whose missing title is taken as the empty title.
pub open spec fn with_default_titles(
    entries: Seq<(Option<Seq<char>>, Option<Seq<char>>)>,
) -> Seq<(Seq<char>, Option<Seq<char>>)> {
    entries.map_values(
        |e: (Option<Seq<char>>, Option<Seq<char>>)|
            (
                match e.0 {
                    Some(t) => t,
                    None => Seq::<char>::empty(),
                },
                e.1,
            ),
    )
}

/// Gives each entry without a title the empty title.
pub fn fill_missing_titles(entries: Vec<(Option<String>, Option<String>)>) -> (r: Vec<
    (String, Option<String>),
>)
    ensures
        r.deep_view() == with_default_titles(entries.deep_view()),
{
    let mut out: Vec<(String, Option<String>)> = Vec::new();
    let mut i: usize = 0;
    while i < entries.len()
        invariant
            i <= entries@.len(),
            out.deep_view() == with_default_titles(entries.deep_view().take(i as int)),
        decreases entries.len() - i,
    {
        let ghost before = out.deep_view();
        let (title, href) = &entries[i];
        let t = match title {
            Some(t) => t.clone(),
            None => String::new(),
        };
        let h = match href {
            Some(h) => Some(h.clone()),
            None => None,
        };
        let ghost pair = (t.deep_view(), h.deep_view());
        out.push((t, h));
        proof {
            let ev = entries.deep_view();
            assert(out.deep_view() =~= before.push(pair));
            assert(pair.0 == match title.deep_view() {
                Some(x) => x,
                None => Seq::<char>::empty(),
            });
            assert(pair.1 == href.deep_view());
            assert(ev[i as int] == (title.deep_view(), href.deep_view()));
            assert(ev.take(i + 1) =~= ev.take(i as int).push(ev[i as int]));
            assert(with_default_titles(ev.take(i + 1)) =~= with_default_titles(ev.take(i as int)).push(pair));
        }
        i = i + 1;
    }
    proof {
        assert(entries.deep_view().take(entries@.len() as int) =~= entries.deep_view());
    }
    out
}

} // verus!
