//! Per-provider crawl progress: how many listing pages there are, which of them
//! have been handed out for fetching, and how many were extracted.

use vstd::prelude::*;
use crate::normalize::is_digit;

verus! {

broadcast use vstd::seq_lib::group_to_multiset_ensures;

/// The pages above `mark` up to `target`, in increasing order.
pub open spec fn dispatch_pages(mark: u32, target: u32) -> Seq<u32> {
    if target > mark {
        Seq::new((target - mark) as nat, |i: int| (mark + 1 + i) as u32)
    } else {
        Seq::empty()
    }
}

pub open spec fn max_u32(a: u32, b: u32) -> u32 {
    if a >= b {
        a
    } else {
        b
    }
}

/// Progress of one provider's crawl. The high-water mark never decreases, so no
/// page is handed out twice.
pub struct CrawlState {
    total_pages: u32,
    high_water_mark: u32,
    processed_pages: u32,
}

impl CrawlState {
    pub closed spec fn total(self) -> u32 {
        self.total_pages
    }

    pub closed spec fn mark(self) -> u32 {
        self.high_water_mark
    }

    pub closed spec fn processed(self) -> u32 {
        self.processed_pages
    }

    /// No more pages are counted as processed than were handed out.
    pub open spec fn wf(self) -> bool {
        self.processed() <= self.mark()
    }

    pub fn new() -> (r: CrawlState)
        ensures
            r.total() == 0,
            r.mark() == 0,
            r.processed() == 0,
            r.wf(),
    {
        CrawlState { total_pages: 0, high_water_mark: 0, processed_pages: 0 }
    }

    pub fn total_pages(&self) -> (r: u32)
        ensures
            r == self.total(),
    {
        self.total_pages
    }

    pub fn high_water_mark(&self) -> (r: u32)
        ensures
            r == self.mark(),
    {
        self.high_water_mark
    }

    pub fn processed_pages(&self) -> (r: u32)
        ensures
            r == self.processed(),
    {
        self.processed_pages
    }

    /// Hands out every page above the high-water mark up to `target`, and raises
    /// the mark to `target` before any of them is fetched.
    pub fn dispatch(&mut self, target: u32) -> (r: Vec<u32>)
        requires
            old(self).wf(),
        ensures
            r@ == dispatch_pages(old(self).mark(), target),
            final(self).mark() == max_u32(old(self).mark(), target),
            final(self).total() == old(self).total(),
            final(self).processed() == old(self).processed(),
            final(self).wf(),
    {
        let mut pages: Vec<u32> = Vec::new();
        let mark = self.high_water_mark;
        if target > mark {
            let mut p = mark;
            while p < target
                invariant
                    mark <= p <= target,
                    pages@ == dispatch_pages(mark, p),
                decreases target - p,
            {
                p = p + 1;
                pages.push(p);
                proof {
                    assert(pages@ =~= dispatch_pages(mark, p));
                }
            }
            self.high_water_mark = target;
        } else {
            proof {
                assert(pages@ =~= dispatch_pages(mark, target));
            }
        }
        pages
    }

    /// Records the page count just discovered and dispatches up to it.
    pub fn start_crawl(&mut self, total: u32) -> (r: Vec<u32>)
        requires
            old(self).wf(),
        ensures
            r@ == dispatch_pages(old(self).mark(), total),
            final(self).total() == total,
            final(self).mark() == max_u32(old(self).mark(), total),
            final(self).processed() == old(self).processed(),
            final(self).wf(),
    {
        self.total_pages = total;
        self.dispatch(total)
    }

    /// Counts one more page whose extraction has completed.
    pub fn record_processed(&mut self)
        requires
            old(self).wf(),
            old(self).processed() < old(self).mark(),
        ensures
            final(self).processed() == old(self).processed() + 1,
            final(self).total() == old(self).total(),
            final(self).mark() == old(self).mark(),
            final(self).wf(),
    {
        self.processed_pages = self.processed_pages + 1;
    }
}

/// Every page in `(mark, target]` is handed out exactly once by a dispatch, and
/// no other page is.
pub proof fn lemma_dispatch_exactly_once(mark: u32, target: u32, p: u32)
    ensures
        dispatch_pages(mark, target).to_multiset().count(p) == (if mark < p <= target {
            1nat
        } else {
            0nat
        }),
{
    let s = dispatch_pages(mark, target);
    assert(s.no_duplicates());
    if mark < p <= target {
        assert(s[p - mark - 1] == p);
        assert(s.contains(p));
        s.lemma_multiset_has_no_duplicates();
    } else {
        assert(!s.contains(p));
    }
}

/// A later dispatch in the same crawl never hands out a page that an earlier one did.
pub proof fn lemma_dispatch_never_repeats(mark: u32, first: u32, second: u32, p: u32)
    requires
        dispatch_pages(mark, first).contains(p),
    ensures
        !dispatch_pages(max_u32(mark, first), second).contains(p),
{
}

// ---------------------------------------------------------------------------
// Page-count discovery

/// Value of a sequence of decimal digits.
pub open spec fn digits_value(s: Seq<char>) -> nat
    decreases s.len(),
{
    if s.len() == 0 {
        0
    } else {
        digits_value(s.drop_last()) * 10 + (s.last() as nat - '0' as nat) as nat
    }
}

pub open spec fn all_digits(s: Seq<char>) -> bool {
    forall|i: int| 0 <= i < s.len() ==> is_digit(#[trigger] s[i])
}

/// An unsigned decimal as `u32` parsing reads it: an optional `+`, then one or
/// more digits whose value fits.
pub open spec fn parse_u32(s: Seq<char>) -> Option<u32> {
    let d = if s.len() > 0 && s[0] == '+' {
        s.skip(1)
    } else {
        s
    };
    if d.len() > 0 && all_digits(d) && digits_value(d) <= u32::MAX {
        Some(digits_value(d) as u32)
    } else {
        None
    }
}

/// The page count read from a pagination label; 1 where there is no label or it
/// does not parse.
pub open spec fn page_count_of(label: Option<Seq<char>>) -> u32 {
    match label {
        Some(t) => match parse_u32(t) {
            Some(n) => n,
            None => 1,
        },
        None => 1,
    }
}

proof fn lemma_digits_value_grows(s: Seq<char>, i: int)
    requires
        0 <= i <= s.len(),
        all_digits(s),
    ensures
        digits_value(s.take(i)) <= digits_value(s),
    decreases s.len() - i,
{
    if i < s.len() {
        lemma_digits_value_grows(s, i + 1);
        assert(s.take(i + 1).drop_last() =~= s.take(i));
        assert(is_digit(s[i]));
    } else {
        assert(s.take(i) =~= s);
    }
}

/// Parses a decimal page number as `u32` parsing does.
pub fn parse_page_number(text: &str) -> (r: Option<u32>)
    ensures
        r == parse_u32(text@),
{
    let s = crate::text::chars_of(text);
    let start: usize = if s.len() > 0 && s[0] == '+' {
        1
    } else {
        0
    };
    let ghost d = s@.skip(start as int);
    proof {
        assert(d == (if s@.len() > 0 && s@[0] == '+' {
            s@.skip(1)
        } else {
            s@
        }));
    }
    if start >= s.len() {
        return None;
    }
    let mut acc: u64 = 0;
    let mut i = start;
    while i < s.len()
        invariant
            start <= i <= s@.len(),
            s@ == text@,
            d == s@.skip(start as int),
            d == (if s@.len() > 0 && s@[0] == '+' {
                s@.skip(1)
            } else {
                s@
            }),
            acc == digits_value(d.take(i - start)),
            acc <= u32::MAX,
            forall|k: int| 0 <= k < i - start ==> is_digit(#[trigger] d[k]),
        decreases s.len() - i,
    {
        let c = s[i];
        if !('0' <= c && c <= '9') {
            proof {
                assert(d[i - start] == c);
                assert(!is_digit(d[i - start]));
                assert(!all_digits(d));
                assert(parse_u32(s@) == None::<u32>);
            }
            return None;
        }
        proof {
            assert(d[i - start] == c);
            assert(d.take(i - start + 1).drop_last() =~= d.take(i - start));
            assert(d.take(i - start + 1).last() == c);
            assert(digits_value(d.take(i - start + 1)) == digits_value(d.take(i - start)) * 10 + (
            c as nat - '0' as nat) as nat);
        }
        acc = acc * 10 + (c as u64 - '0' as u64);
        if acc > u32::MAX as u64 {
            proof {
                if all_digits(d) {
                    lemma_digits_value_grows(d, i - start + 1);
                    assert(digits_value(d) > u32::MAX);
                }
                assert(parse_u32(s@) == None::<u32>);
            }
            return None;
        }
        i = i + 1;
    }
    proof {
        assert(d.take(i - start) =~= d);
    }
    Some(acc as u32)
}

/// The page count behind a pagination label; a missing or unreadable label
/// degrades to a single page rather than failing.
pub fn page_count_from_label(label: Option<String>) -> (r: u32)
    ensures
        r == page_count_of(
            match label {
                Some(t) => Some(t@),
                None => None,
            },
        ),
{
    match label {
        Some(t) => match parse_page_number(t.as_str()) {
            Some(n) => n,
            None => 1,
        },
        None => 1,
    }
}

/// Where no page count can be read, a fresh crawl still fetches exactly page 1.
pub proof fn lemma_degraded_discovery_crawls_one_page(label: Option<Seq<char>>)
    requires
        label is None || parse_u32(label->Some_0) is None,
    ensures
        page_count_of(label) == 1,
        dispatch_pages(0, page_count_of(label)) == seq![1u32],
{
    assert(dispatch_pages(0, 1) =~= seq![1u32]);
}


// ---------------------------------------------------------------------------
// Bounded page pool

/// Dispatched pages waiting for one of at most `limit` concurrent fetches. Pages
/// are issued in dispatch order, each exactly once.
pub struct PagePool {
    pages: Vec<u32>,
    next: usize,
    in_flight: u32,
    limit: u32,
}

impl PagePool {
    pub closed spec fn queue(self) -> Seq<u32> {
        self.pages@
    }

    /// The pages issued so far, in order.
    pub closed spec fn issued(self) -> Seq<u32> {
        self.pages@.take(self.next as int)
    }

    pub closed spec fn active(self) -> nat {
        self.in_flight as nat
    }

    pub closed spec fn bound(self) -> nat {
        self.limit as nat
    }

    pub closed spec fn wf(self) -> bool {
        &&& self.next <= self.pages@.len()
        &&& self.in_flight <= self.limit
        &&& self.in_flight <= self.next
        &&& self.limit > 0
    }

    pub fn new(pages: Vec<u32>, limit: u32) -> (r: PagePool)
        requires
            limit > 0,
        ensures
            r.wf(),
            r.queue() == pages@,
            r.issued() == Seq::<u32>::empty(),
            r.active() == 0,
            r.bound() == limit,
    {
        let r = PagePool { pages, next: 0, in_flight: 0, limit };
        proof {
            assert(r.issued() =~= Seq::<u32>::empty());
        }
        r
    }

    /// The next page to fetch, if a worker is free and a page is waiting.
    pub fn next_page(&mut self) -> (r: Option<u32>)
        requires
            old(self).wf(),
        ensures
            final(self).wf(),
            final(self).queue() == old(self).queue(),
            final(self).bound() == old(self).bound(),
            old(self).active() < old(self).bound() && old(self).issued().len() < old(
                self,
            ).queue().len() ==> {
                &&& r == Some(old(self).queue()[old(self).issued().len() as int])
                &&& final(self).issued() == old(self).issued().push(r->Some_0)
                &&& final(self).active() == old(self).active() + 1
            },
            !(old(self).active() < old(self).bound() && old(self).issued().len() < old(
                self,
            ).queue().len()) ==> r is None && final(self).issued() == old(self).issued()
                && final(self).active() == old(self).active(),
    {
        if self.in_flight < self.limit && self.next < self.pages.len() {
            let p = self.pages[self.next];
            proof {
                assert(self.pages@.take(self.next + 1) =~= self.pages@.take(self.next as int).push(p));
            }
            self.next = self.next + 1;
            self.in_flight = self.in_flight + 1;
            Some(p)
        } else {
            None
        }
    }

    /// A fetch has ended, whatever its outcome; its worker is free again.
    pub fn finish_page(&mut self)
        requires
            old(self).wf(),
            old(self).active() > 0,
        ensures
            final(self).wf(),
            final(self).queue() == old(self).queue(),
            final(self).issued() == old(self).issued(),
            final(self).bound() == old(self).bound(),
            final(self).active() == old(self).active() - 1,
    {
        self.in_flight = self.in_flight - 1;
    }

    pub fn in_flight(&self) -> (r: u32)
        ensures
            r == self.active(),
    {
        self.in_flight
    }

    /// Every page has been issued and every fetch has ended.
    pub fn is_finished(&self) -> (r: bool)
        requires
            self.wf(),
        ensures
            r == (self.issued().len() == self.queue().len() && self.active() == 0),
    {
        self.next == self.pages.len() && self.in_flight == 0
    }
}

/// The pool issues its pages in order and never more than it holds, so pages
/// dispatched once are fetched at most once; once finished, each was issued.
pub proof fn lemma_pool_issues_queue_prefix(pool: PagePool)
    requires
        pool.wf(),
    ensures
        pool.issued() == pool.queue().take(pool.issued().len() as int),
        pool.issued().len() <= pool.queue().len(),
        pool.active() <= pool.bound(),
{
}


/// A crawl that dispatches `(mark, target]` through a pool and runs it to the end
/// issues exactly one fetch for each page in that range, and none for any other.
pub proof fn lemma_crawl_fetches_each_page_once(pool: PagePool, mark: u32, target: u32, p: u32)
    requires
        pool.wf(),
        pool.queue() == dispatch_pages(mark, target),
        pool.issued().len() == pool.queue().len(),
    ensures
        pool.issued().to_multiset().count(p) == (if mark < p <= target {
            1nat
        } else {
            0nat
        }),
{
    assert(pool.issued() =~= pool.queue());
    lemma_dispatch_exactly_once(mark, target, p);
}

} // verus!
