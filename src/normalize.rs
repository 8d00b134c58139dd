//! The name normaliser: a fixed-order pipeline of pure transforms that turns a
//! scraped, noisy title into the canonical name under which records are stored
//! and searched.
//!
//! - junk markers such as `[FitGirl Repack]` are replaced by a space;
//! - release-year annotations `(dddd)` are replaced by a space;
//! - apostrophes are dropped and every other symbol becomes a space;
//! - trailing edition words (`GOTY`, `Edition`, ...) are cut off;
//! - each run of whitespace becomes one space;
//! - leading and trailing spaces are trimmed.

use vstd::prelude::*;
use crate::text::{chars_of, is_space, is_space_exec, occurs_at, occurs_at_exec, string_from_chars};

verus! {

// ---------------------------------------------------------------------------
// Character classes

pub open spec fn is_apostrophe(c: char) -> bool {
    c == '\'' || c == '\u{2019}'
}

/// ASCII punctuation and a few typographic marks common in scraped titles.
pub open spec fn is_symbol(c: char) -> bool {
    let x = c as u32;
    (33 <= x <= 47) || (58 <= x <= 64) || (91 <= x <= 96) || (123 <= x <= 126) || x == 0xA9
        || x == 0xAB || x == 0xAE || x == 0xBB || x == 0x2013 || x == 0x2014 || x == 0x2019
        || x == 0x2122
}

pub open spec fn is_digit(c: char) -> bool {
    '0' <= c && c <= '9'
}

fn is_symbol_exec(c: char) -> (r: bool)
    ensures
        r == is_symbol(c),
{
    let x = c as u32;
    (33 <= x && x <= 47) || (58 <= x && x <= 64) || (91 <= x && x <= 96) || (123 <= x && x
        <= 126) || x == 0xA9 || x == 0xAB || x == 0xAE || x == 0xBB || x == 0x2013 || x == 0x2014
        || x == 0x2019 || x == 0x2122
}

pub open spec fn no_symbols(s: Seq<char>) -> bool {
    forall|i: int| 0 <= i < s.len() ==> !is_symbol(#[trigger] s[i])
}

// ---------------------------------------------------------------------------
// Junk markers

/// Release-group tags that carry no part of the game's name.
pub open spec fn junk_markers() -> Seq<Seq<char>> {
    seq![
        "[FitGirl Repack]"@,
        "[DODI Repack]"@,
        "[KaOs Repack]"@,
        "[Repack]"@,
        "[Portable]"@,
        "(Portable)"@,
    ]
}

pub const JUNK_MARKER_COUNT: usize = 6;

fn junk_marker(k: usize) -> (r: &'static str)
    requires
        k < JUNK_MARKER_COUNT,
    ensures
        r@ == junk_markers()[k as int],
{
    match k {
        0 => "[FitGirl Repack]",
        1 => "[DODI Repack]",
        2 => "[KaOs Repack]",
        3 => "[Repack]",
        4 => "[Portable]",
        _ => "(Portable)",
    }
}

/// Length of the first marker, from the `k`-th on, that `s` starts with; 0 if none.
pub open spec fn junk_prefix_from(s: Seq<char>, k: nat) -> nat
    decreases junk_markers().len() - k,
{
    if k >= junk_markers().len() {
        0
    } else if occurs_at(s, junk_markers()[k as int], 0) {
        junk_markers()[k as int].len()
    } else {
        junk_prefix_from(s, k + 1)
    }
}

pub open spec fn strip_junk(s: Seq<char>) -> Seq<char>
    decreases s.len(),
{
    if s.len() == 0 {
        s
    } else {
        let k = junk_prefix_from(s, 0);
        if 0 < k && k <= s.len() {
            seq![' '] + strip_junk(s.skip(k as int))
        } else {
            seq![s[0]] + strip_junk(s.skip(1))
        }
    }
}

proof fn lemma_occurs_at_skip(s: Seq<char>, p: Seq<char>, i: int)
    requires
        0 <= i <= s.len(),
    ensures
        occurs_at(s.skip(i), p, 0) == occurs_at(s, p, i),
{
    if i + p.len() <= s.len() {
        assert(s.skip(i).subrange(0, p.len() as int) =~= s.subrange(i, i + p.len()));
    }
}

fn junk_prefix_at(s: &Vec<char>, i: usize) -> (r: usize)
    requires
        i <= s@.len(),
    ensures
        r == junk_prefix_from(s@.skip(i as int), 0),
{
    let mut k: usize = 0;
    while k < JUNK_MARKER_COUNT
        invariant
            i <= s@.len(),
            k <= JUNK_MARKER_COUNT,
            junk_prefix_from(s@.skip(i as int), 0) == junk_prefix_from(s@.skip(i as int), k as nat),
        decreases JUNK_MARKER_COUNT - k,
    {
        let m = chars_of(junk_marker(k));
        proof {
            lemma_occurs_at_skip(s@, m@, i as int);
        }
        if occurs_at_exec(s, &m, i) {
            return m.len();
        }
        k = k + 1;
    }
    0
}

/// Replaces each junk marker by a space, scanning left to right.
pub fn remove_trash(s: &Vec<char>) -> (r: Vec<char>)
    ensures
        r@ == strip_junk(s@),
{
    let mut out: Vec<char> = Vec::new();
    let mut i: usize = 0;
    proof {
        assert(s@.skip(0) =~= s@);
        assert(out@ + strip_junk(s@) =~= strip_junk(s@));
    }
    while i < s.len()
        invariant
            i <= s@.len(),
            out@ + strip_junk(s@.skip(i as int)) == strip_junk(s@),
        decreases s.len() - i,
    {
        let k = junk_prefix_at(s, i);
        let ghost rest = s@.skip(i as int);
        if 0 < k && k <= s.len() - i {
            proof {
                assert(rest.skip(k as int) =~= s@.skip(i + k));
                assert(out@ + strip_junk(rest) =~= out@.push(' ') + strip_junk(s@.skip(i + k)));
            }
            out.push(' ');
            i = i + k;
        } else {
            proof {
                assert(rest.skip(1) =~= s@.skip(i + 1));
                assert(out@ + strip_junk(rest) =~= out@.push(s@[i as int]) + strip_junk(
                    s@.skip(i + 1),
                ));
            }
            out.push(s[i]);
            i = i + 1;
        }
    }
    proof {
        assert(out@ + strip_junk(s@.skip(i as int)) =~= out@);
    }
    out
}

// ---------------------------------------------------------------------------
// Release years

/// `s` opens with a four-digit year in parentheses, such as `(2020)`.
pub open spec fn year_at_start(s: Seq<char>) -> bool {
    s.len() >= 6 && s[0] == '(' && is_digit(s[1]) && is_digit(s[2]) && is_digit(s[3])
        && is_digit(s[4]) && s[5] == ')'
}

pub open spec fn strip_years(s: Seq<char>) -> Seq<char>
    decreases s.len(),
{
    if s.len() == 0 {
        s
    } else if year_at_start(s) {
        seq![' '] + strip_years(s.skip(6))
    } else {
        seq![s[0]] + strip_years(s.skip(1))
    }
}

fn is_digit_exec(c: char) -> (r: bool)
    ensures
        r == is_digit(c),
{
    '0' <= c && c <= '9'
}

/// Replaces each year annotation `(dddd)` by a space.
pub fn remove_release_year_from_name(s: &Vec<char>) -> (r: Vec<char>)
    ensures
        r@ == strip_years(s@),
{
    let mut out: Vec<char> = Vec::new();
    let mut i: usize = 0;
    proof {
        assert(s@.skip(0) =~= s@);
        assert(out@ + strip_years(s@) =~= strip_years(s@));
    }
    while i < s.len()
        invariant
            i <= s@.len(),
            out@ + strip_years(s@.skip(i as int)) == strip_years(s@),
        decreases s.len() - i,
    {
        let ghost rest = s@.skip(i as int);
        if s.len() - i >= 6 && s[i] == '(' && is_digit_exec(s[i + 1]) && is_digit_exec(s[i + 2])
            && is_digit_exec(s[i + 3]) && is_digit_exec(s[i + 4]) && s[i + 5] == ')' {
            proof {
                assert(year_at_start(rest));
                assert(rest.skip(6) =~= s@.skip(i + 6));
                assert(out@ + strip_years(rest) =~= out@.push(' ') + strip_years(s@.skip(i + 6)));
            }
            out.push(' ');
            i = i + 6;
        } else {
            proof {
                assert(!year_at_start(rest));
                assert(rest.skip(1) =~= s@.skip(i + 1));
                assert(out@ + strip_years(rest) =~= out@.push(s@[i as int]) + strip_years(
                    s@.skip(i + 1),
                ));
            }
            out.push(s[i]);
            i = i + 1;
        }
    }
    proof {
        assert(out@ + strip_years(s@.skip(i as int)) =~= out@);
    }
    out
}

// ---------------------------------------------------------------------------
// Symbols

pub open spec fn symbol_replacement(c: char) -> Seq<char> {
    if is_apostrophe(c) {
        seq![]
    } else if is_symbol(c) {
        seq![' ']
    } else {
        seq![c]
    }
}

pub open spec fn strip_symbols(s: Seq<char>) -> Seq<char>
    decreases s.len(),
{
    if s.len() == 0 {
        s
    } else {
        strip_symbols(s.drop_last()) + symbol_replacement(s.last())
    }
}

/// Drops apostrophes and replaces every other symbol by a space.
pub fn remove_symbols_from_name(s: &Vec<char>) -> (r: Vec<char>)
    ensures
        r@ == strip_symbols(s@),
{
    let mut out: Vec<char> = Vec::new();
    let mut i: usize = 0;
    while i < s.len()
        invariant
            i <= s@.len(),
            out@ == strip_symbols(s@.take(i as int)),
        decreases s.len() - i,
    {
        let c = s[i];
        proof {
            assert(s@.take(i + 1).drop_last() =~= s@.take(i as int));
        }
        if c == '\'' || c == '\u{2019}' {
        } else if is_symbol_exec(c) {
            out.push(' ');
        } else {
            out.push(c);
        }
        proof {
            assert(out@ =~= strip_symbols(s@.take(i as int)) + symbol_replacement(c));
        }
        i = i + 1;
    }
    proof {
        assert(s@.take(s@.len() as int) =~= s@);
    }
    out
}

// ---------------------------------------------------------------------------
// Edition suffixes

/// Words that mark a special release rather than the game itself.
pub open spec fn edition_words() -> Seq<Seq<char>> {
    seq![
        "Edition"@,
        "GOTY"@,
        "Deluxe"@,
        "Ultimate"@,
        "Special"@,
        "Definitive"@,
        "Complete"@,
    ]
}

pub const EDITION_WORD_COUNT: usize = 7;

fn edition_word(k: usize) -> (r: &'static str)
    requires
        k < EDITION_WORD_COUNT,
    ensures
        r@ == edition_words()[k as int],
{
    match k {
        0 => "Edition",
        1 => "GOTY",
        2 => "Deluxe",
        3 => "Ultimate",
        4 => "Special",
        5 => "Definitive",
        _ => "Complete",
    }
}

/// `s` ends with the word `w`, and a space stands before it.
pub open spec fn ends_with_word(s: Seq<char>, w: Seq<char>) -> bool {
    w.len() < s.len() && occurs_at(s, w, s.len() - w.len()) && is_space(s[s.len() - w.len() - 1])
}

/// Length of the first edition word, from the `k`-th on, that ends `s`; 0 if none.
pub open spec fn edition_suffix_from(s: Seq<char>, k: nat) -> nat
    decreases edition_words().len() - k,
{
    if k >= edition_words().len() {
        0
    } else if ends_with_word(s, edition_words()[k as int]) {
        edition_words()[k as int].len()
    } else {
        edition_suffix_from(s, k + 1)
    }
}

pub open spec fn strip_editions(s: Seq<char>) -> Seq<char>
    decreases s.len(),
{
    let t = trim_end(s);
    let k = edition_suffix_from(t, 0);
    if 0 < k && k <= t.len() && t.len() <= s.len() {
        strip_editions(t.take(t.len() - k))
    } else {
        t
    }
}

proof fn lemma_edition_suffix_bound(s: Seq<char>, k: nat)
    ensures
        edition_suffix_from(s, k) < s.len() || edition_suffix_from(s, k) == 0,
    decreases edition_words().len() - k,
{
    if k < edition_words().len() && !ends_with_word(s, edition_words()[k as int]) {
        lemma_edition_suffix_bound(s, k + 1);
    }
}

proof fn lemma_trim_end_prefix(s: Seq<char>)
    ensures
        trim_end(s).len() <= s.len(),
        trim_end(s) == s.take(trim_end(s).len() as int),
    decreases s.len(),
{
    if s.len() > 0 && is_space(s.last()) {
        lemma_trim_end_prefix(s.drop_last());
        assert(s.drop_last().take(trim_end(s).len() as int) =~= s.take(trim_end(s).len() as int));
    } else {
        assert(s.take(s.len() as int) =~= s);
    }
}

fn edition_suffix_at(s: &Vec<char>, e: usize) -> (r: usize)
    requires
        e <= s@.len(),
    ensures
        r == edition_suffix_from(s@.take(e as int), 0),
{
    let ghost t = s@.take(e as int);
    let mut k: usize = 0;
    while k < EDITION_WORD_COUNT
        invariant
            e <= s@.len(),
            t == s@.take(e as int),
            k <= EDITION_WORD_COUNT,
            edition_suffix_from(t, 0) == edition_suffix_from(t, k as nat),
        decreases EDITION_WORD_COUNT - k,
    {
        let w = chars_of(edition_word(k));
        if w.len() < e {
            let start = e - w.len();
            proof {
                assert(t.subrange(start as int, e as int) =~= s@.subrange(start as int, e as int));
            }
            if occurs_at_exec(s, &w, start) && is_space_exec(s[start - 1]) {
                return w.len();
            }
        }
        k = k + 1;
    }
    0
}

/// Cuts trailing edition words, and the whitespace around them, off the end.
pub fn remove_special_edition_from_name(s: &Vec<char>) -> (r: Vec<char>)
    ensures
        r@ == strip_editions(s@),
{
    let mut end = s.len();
    proof {
        assert(s@.take(end as int) =~= s@);
    }
    loop
        invariant
            end <= s@.len(),
            strip_editions(s@.take(end as int)) == strip_editions(s@),
        decreases end,
    {
        let e = trimmed_end(s, end);
        let k = edition_suffix_at(s, e);
        proof {
            lemma_trim_end_prefix(s@.take(end as int));
            lemma_edition_suffix_bound(s@.take(e as int), 0);
        }
        if k == 0 {
            return slice_chars(s, 0, e);
        }
        proof {
            assert(s@.take(e as int).take(e - k) =~= s@.take(e - k));
        }
        end = e - k;
    }
}


// ---------------------------------------------------------------------------
// Whitespace runs

pub open spec fn collapse_spaces(s: Seq<char>) -> Seq<char>
    decreases s.len(),
{
    if s.len() == 0 {
        s
    } else {
        let p = collapse_spaces(s.drop_last());
        if is_space(s.last()) {
            if p.len() > 0 && p.last() == ' ' {
                p
            } else {
                p.push(' ')
            }
        } else {
            p.push(s.last())
        }
    }
}

/// Replaces each run of whitespace by a single space.
pub fn remove_duplicate_spaces(s: &Vec<char>) -> (r: Vec<char>)
    ensures
        r@ == collapse_spaces(s@),
{
    let mut out: Vec<char> = Vec::new();
    let mut i: usize = 0;
    while i < s.len()
        invariant
            i <= s@.len(),
            out@ == collapse_spaces(s@.take(i as int)),
        decreases s.len() - i,
    {
        let c = s[i];
        proof {
            assert(s@.take(i + 1).drop_last() =~= s@.take(i as int));
        }
        if is_space_exec(c) {
            if out.len() == 0 || out[out.len() - 1] != ' ' {
                out.push(' ');
            }
        } else {
            out.push(c);
        }
        i = i + 1;
    }
    proof {
        assert(s@.take(s@.len() as int) =~= s@);
    }
    out
}

// ---------------------------------------------------------------------------
// Trimming

pub open spec fn trim_start(s: Seq<char>) -> Seq<char>
    decreases s.len(),
{
    if s.len() > 0 && is_space(s[0]) {
        trim_start(s.skip(1))
    } else {
        s
    }
}

pub open spec fn trim_end(s: Seq<char>) -> Seq<char>
    decreases s.len(),
{
    if s.len() > 0 && is_space(s.last()) {
        trim_end(s.drop_last())
    } else {
        s
    }
}

pub open spec fn trim(s: Seq<char>) -> Seq<char> {
    trim_end(trim_start(s))
}

/// Index of the first non-space character of `s[from..]`, or `s.len()`.
fn skip_spaces(s: &Vec<char>, from: usize) -> (r: usize)
    requires
        from <= s@.len(),
    ensures
        from <= r <= s@.len(),
        trim_start(s@.subrange(from as int, s@.len() as int)) == s@.subrange(
            r as int,
            s@.len() as int,
        ),
{
    let mut i = from;
    while i < s.len() && is_space_exec(s[i])
        invariant
            from <= i <= s@.len(),
            trim_start(s@.subrange(from as int, s@.len() as int)) == trim_start(
                s@.subrange(i as int, s@.len() as int),
            ),
        decreases s.len() - i,
    {
        proof {
            assert(s@.subrange(i as int, s@.len() as int).skip(1) =~= s@.subrange(
                i + 1,
                s@.len() as int,
            ));
        }
        i = i + 1;
    }
    i
}

/// Length of `trim_end(s[..to])`.
fn trimmed_end(s: &Vec<char>, to: usize) -> (r: usize)
    requires
        to <= s@.len(),
    ensures
        r <= to,
        trim_end(s@.take(to as int)) == s@.take(r as int),
{
    let mut e = to;
    while e > 0 && is_space_exec(s[e - 1])
        invariant
            e <= to <= s@.len(),
            trim_end(s@.take(to as int)) == trim_end(s@.take(e as int)),
        decreases e,
    {
        proof {
            assert(s@.take(e as int).drop_last() =~= s@.take(e - 1));
        }
        e = e - 1;
    }
    e
}

/// Copy of `s[from..to]`.
fn slice_chars(s: &Vec<char>, from: usize, to: usize) -> (r: Vec<char>)
    requires
        from <= to <= s@.len(),
    ensures
        r@ == s@.subrange(from as int, to as int),
{
    let mut out: Vec<char> = Vec::new();
    let mut i = from;
    while i < to
        invariant
            from <= i <= to <= s@.len(),
            out@ == s@.subrange(from as int, i as int),
        decreases to - i,
    {
        out.push(s[i]);
        proof {
            assert(out@ =~= s@.subrange(from as int, i + 1));
        }
        i = i + 1;
    }
    out
}

proof fn lemma_trim_start_suffix(s: Seq<char>)
    ensures
        trim_start(s).len() <= s.len(),
        trim_start(s) == s.subrange(s.len() - trim_start(s).len(), s.len() as int),
    decreases s.len(),
{
    if s.len() > 0 && is_space(s[0]) {
        lemma_trim_start_suffix(s.skip(1));
        assert(s.skip(1).subrange(
            s.skip(1).len() - trim_start(s).len(),
            s.skip(1).len() as int,
        ) =~= s.subrange(s.len() - trim_start(s).len(), s.len() as int));
    } else {
        assert(s.subrange(0, s.len() as int) =~= s);
    }
}

/// Strips leading and trailing whitespace.
pub fn trim_name(s: &Vec<char>) -> (r: Vec<char>)
    ensures
        r@ == trim(s@),
{
    let a = skip_spaces(s, 0);
    proof {
        assert(s@.subrange(0, s@.len() as int) =~= s@);
    }
    let t = slice_chars(s, a, s.len());
    let e = trimmed_end(&t, t.len());
    proof {
        assert(t@.take(t@.len() as int) =~= t@);
    }
    slice_chars(&t, 0, e)
}


// ---------------------------------------------------------------------------
// The pipeline

/// The canonical name of a raw title: the transforms above, in that order.
pub open spec fn normalize(s: Seq<char>) -> Seq<char> {
    trim(collapse_spaces(strip_editions(strip_symbols(strip_years(strip_junk(s))))))
}

/// Turns a raw scraped title into its canonical name.
pub fn format_name(name: String) -> (r: String)
    ensures
        r@ == normalize(name@),
{
    let s0 = chars_of(name.as_str());
    let s1 = remove_trash(&s0);
    let s2 = remove_release_year_from_name(&s1);
    let s3 = remove_symbols_from_name(&s2);
    let s4 = remove_special_edition_from_name(&s3);
    let s5 = remove_duplicate_spaces(&s4);
    let s6 = trim_name(&s5);
    string_from_chars(&s6)
}

/// Only `' '` stands for whitespace, and never twice in a row.
pub open spec fn single_spaced(s: Seq<char>) -> bool {
    &&& forall|i: int| 0 <= i < s.len() && is_space(#[trigger] s[i]) ==> s[i] == ' '
    &&& forall|i: int| 0 <= i < s.len() - 1 && #[trigger] s[i] == ' ' ==> s[i + 1] != ' '
}

/// What every canonical name looks like; the pipeline leaves such a name unchanged.
pub open spec fn is_canonical(s: Seq<char>) -> bool {
    &&& no_symbols(s)
    &&& single_spaced(s)
    &&& s.len() > 0 ==> !is_space(s[0]) && !is_space(s.last())
    &&& edition_suffix_from(s, 0) == 0
}

proof fn lemma_junk_markers_open_with_symbol()
    ensures
        forall|k: int|
            0 <= k < junk_markers().len() ==> #[trigger] junk_markers()[k].len() > 0
                && is_symbol(junk_markers()[k][0]),
{
    reveal_strlit("[FitGirl Repack]");
    reveal_strlit("[DODI Repack]");
    reveal_strlit("[KaOs Repack]");
    reveal_strlit("[Repack]");
    reveal_strlit("[Portable]");
    reveal_strlit("(Portable)");
}

proof fn lemma_edition_words_plain()
    ensures
        forall|k: int|
            0 <= k < edition_words().len() ==> #[trigger] edition_words()[k].len() > 0 && forall|
                j: int,
            |
                0 <= j < edition_words()[k].len() ==> !is_space(#[trigger] edition_words()[k][j]),
{
    reveal_strlit("Edition");
    reveal_strlit("GOTY");
    reveal_strlit("Deluxe");
    reveal_strlit("Ultimate");
    reveal_strlit("Special");
    reveal_strlit("Definitive");
    reveal_strlit("Complete");
}

proof fn lemma_junk_prefix_none(s: Seq<char>, k: nat)
    requires
        s.len() > 0,
        !is_symbol(s[0]),
    ensures
        junk_prefix_from(s, k) == 0,
    decreases junk_markers().len() - k,
{
    lemma_junk_markers_open_with_symbol();
    if k < junk_markers().len() {
        let m = junk_markers()[k as int];
        if occurs_at(s, m, 0) {
            assert(s.subrange(0, m.len() as int)[0] == s[0]);
        }
        lemma_junk_prefix_none(s, k + 1);
    }
}

proof fn lemma_strip_junk_fixed(s: Seq<char>)
    requires
        no_symbols(s),
    ensures
        strip_junk(s) == s,
    decreases s.len(),
{
    if s.len() > 0 {
        assert(!is_symbol(s[0]));
        lemma_junk_prefix_none(s, 0);
        lemma_strip_junk_fixed(s.skip(1));
        assert(seq![s[0]] + s.skip(1) =~= s);
    }
}

proof fn lemma_strip_years_fixed(s: Seq<char>)
    requires
        no_symbols(s),
    ensures
        strip_years(s) == s,
    decreases s.len(),
{
    if s.len() > 0 {
        assert(!is_symbol(s[0]));
        lemma_strip_years_fixed(s.skip(1));
        assert(seq![s[0]] + s.skip(1) =~= s);
    }
}

proof fn lemma_strip_symbols_fixed(s: Seq<char>)
    requires
        no_symbols(s),
    ensures
        strip_symbols(s) == s,
    decreases s.len(),
{
    if s.len() > 0 {
        assert(!is_symbol(s.last()));
        lemma_strip_symbols_fixed(s.drop_last());
        assert(s.drop_last() + seq![s.last()] =~= s);
    }
}

proof fn lemma_strip_symbols_clean(s: Seq<char>)
    ensures
        no_symbols(strip_symbols(s)),
    decreases s.len(),
{
    if s.len() > 0 {
        lemma_strip_symbols_clean(s.drop_last());
        let p = strip_symbols(s.drop_last());
        let q = symbol_replacement(s.last());
        assert forall|i: int| 0 <= i < (p + q).len() implies !is_symbol(#[trigger] (p + q)[i]) by {
            if i >= p.len() {
                assert(q[i - p.len()] == (p + q)[i]);
            }
        }
    }
}

proof fn lemma_trim_end_clean_end(s: Seq<char>)
    ensures
        trim_end(s).len() > 0 ==> !is_space(trim_end(s).last()),
    decreases s.len(),
{
    if s.len() > 0 && is_space(s.last()) {
        lemma_trim_end_clean_end(s.drop_last());
    }
}

proof fn lemma_strip_editions_shape(s: Seq<char>)
    ensures
        strip_editions(s).len() <= s.len(),
        strip_editions(s) == s.take(strip_editions(s).len() as int),
        strip_editions(s).len() > 0 ==> !is_space(strip_editions(s).last()),
        edition_suffix_from(strip_editions(s), 0) == 0,
    decreases s.len(),
{
    let t = trim_end(s);
    let k = edition_suffix_from(t, 0);
    lemma_trim_end_prefix(s);
    lemma_trim_end_clean_end(s);
    lemma_edition_suffix_bound(t, 0);
    if 0 < k && k <= t.len() && t.len() <= s.len() {
        let u = t.take(t.len() - k);
        lemma_strip_editions_shape(u);
        let r = strip_editions(u);
        assert(u.take(r.len() as int) =~= s.take(r.len() as int));
    }
}

proof fn lemma_no_symbols_prefix(s: Seq<char>, n: int)
    requires
        no_symbols(s),
        0 <= n <= s.len(),
    ensures
        no_symbols(s.take(n)),
{
    assert forall|i: int| 0 <= i < s.take(n).len() implies !is_symbol(#[trigger] s.take(n)[i]) by {
        assert(s.take(n)[i] == s[i]);
    }
}

proof fn lemma_collapse_end(s: Seq<char>)
    requires
        s.len() > 0,
    ensures
        collapse_spaces(s).len() > 0,
        is_space(s.last()) ==> collapse_spaces(s).last() == ' ',
        !is_space(s.last()) ==> collapse_spaces(s).last() == s.last(),
{
}

proof fn lemma_collapse_clean(s: Seq<char>)
    ensures
        no_symbols(s) ==> no_symbols(collapse_spaces(s)),
        single_spaced(collapse_spaces(s)),
    decreases s.len(),
{
    if s.len() > 0 {
        let p = collapse_spaces(s.drop_last());
        lemma_collapse_clean(s.drop_last());
        let r = collapse_spaces(s);
        if no_symbols(s) {
            assert(no_symbols(s.drop_last())) by {
                assert forall|i: int| 0 <= i < s.drop_last().len() implies !is_symbol(
                    #[trigger] s.drop_last()[i],
                ) by {
                    assert(s.drop_last()[i] == s[i]);
                }
            }
            assert forall|i: int| 0 <= i < r.len() implies !is_symbol(#[trigger] r[i]) by {
                if i < p.len() {
                    assert(r[i] == p[i]);
                }
            }
        }
        assert forall|i: int| 0 <= i < r.len() - 1 && #[trigger] r[i] == ' ' implies r[i + 1]
            != ' ' by {
            assert(r[i] == p[i]);
            if i + 1 < p.len() {
                assert(r[i + 1] == p[i + 1]);
            }
        }
        assert forall|i: int| 0 <= i < r.len() && is_space(#[trigger] r[i]) implies r[i] == ' ' by {
            if i < p.len() {
                assert(r[i] == p[i]);
            }
        }
    }
}

proof fn lemma_collapse_fixed(s: Seq<char>)
    requires
        single_spaced(s),
    ensures
        collapse_spaces(s) == s,
    decreases s.len(),
{
    if s.len() > 0 {
        let d = s.drop_last();
        assert(single_spaced(d)) by {
            assert forall|i: int| 0 <= i < d.len() && is_space(#[trigger] d[i]) implies d[i]
                == ' ' by {
                assert(d[i] == s[i]);
            }
            assert forall|i: int| 0 <= i < d.len() - 1 && #[trigger] d[i] == ' ' implies d[i + 1]
                != ' ' by {
                assert(d[i] == s[i]);
                assert(d[i + 1] == s[i + 1]);
            }
        }
        lemma_collapse_fixed(d);
        if is_space(s.last()) {
            assert(s.last() == ' ');
            if d.len() > 0 {
                assert(s[d.len() - 1] == d.last());
            }
        }
        assert(d.push(s.last()) =~= s);
    }
}

/// A word that ends the collapsed text, with a space before it, already did so before.
proof fn lemma_collapse_word(s: Seq<char>, w: Seq<char>)
    requires
        w.len() > 0,
        forall|j: int| 0 <= j < w.len() ==> !is_space(#[trigger] w[j]),
        ends_with_word(collapse_spaces(s), w),
    ensures
        ends_with_word(s, w),
    decreases s.len(),
{
    let c = collapse_spaces(s);
    let n = c.len();
    assert(c.subrange(n - w.len(), n as int)[w.len() - 1] == c.last());
    assert(s.len() > 0);
    lemma_collapse_end(s);
    assert(!is_space(s.last()));
    let d = s.drop_last();
    let p = collapse_spaces(d);
    assert(c == p.push(s.last()));
    if w.len() == 1 {
        assert(p.len() > 0 && is_space(p.last()));
        assert(d.len() > 0);
        lemma_collapse_end(d);
        assert(is_space(d.last()));
        assert(s.subrange(s.len() - 1, s.len() as int) =~= w) by {
            assert(c.subrange(n - 1, n as int)[0] == w[0]);
        }
    } else {
        let v = w.drop_last();
        assert forall|j: int| 0 <= j < v.len() implies !is_space(#[trigger] v[j]) by {
            assert(v[j] == w[j]);
        }
        assert(p.subrange(p.len() - v.len(), p.len() as int) =~= c.subrange(
            n - w.len(),
            n - 1,
        ));
        assert(c.subrange(n - w.len(), n - 1) =~= v) by {
            assert forall|j: int| 0 <= j < v.len() implies c.subrange(n - w.len(), n - 1)[j]
                == v[j] by {
                assert(c.subrange(n - w.len(), n as int)[j] == w[j]);
            }
        }
        assert(p[p.len() - v.len() - 1] == c[n - w.len() - 1]);
        lemma_collapse_word(d, v);
        assert(s.subrange(s.len() - w.len(), s.len() as int) =~= w) by {
            assert forall|j: int| 0 <= j < w.len() implies s.subrange(
                s.len() - w.len(),
                s.len() as int,
            )[j] == w[j] by {
                if j < v.len() {
                    assert(d.subrange(d.len() - v.len(), d.len() as int)[j] == v[j]);
                } else {
                    assert(c.subrange(n - w.len(), n as int)[j] == w[j]);
                }
            }
        }
        assert(s[s.len() - w.len() - 1] == d[d.len() - v.len() - 1]);
    }
}

proof fn lemma_collapse_editions(s: Seq<char>, k: nat)
    requires
        edition_suffix_from(s, k) == 0,
    ensures
        edition_suffix_from(collapse_spaces(s), k) == 0,
    decreases edition_words().len() - k,
{
    lemma_edition_words_plain();
    if k < edition_words().len() {
        let w = edition_words()[k as int];
        if ends_with_word(collapse_spaces(s), w) {
            lemma_collapse_word(s, w);
        }
        lemma_collapse_editions(s, k + 1);
    }
}

proof fn lemma_trim_start_clean_start(s: Seq<char>)
    ensures
        trim_start(s).len() > 0 ==> !is_space(trim_start(s)[0]),
    decreases s.len(),
{
    if s.len() > 0 && is_space(s[0]) {
        lemma_trim_start_clean_start(s.skip(1));
    }
}

proof fn lemma_suffix_editions(c: Seq<char>, a: int, k: nat)
    requires
        0 <= a <= c.len(),
        edition_suffix_from(c, k) == 0,
    ensures
        edition_suffix_from(c.subrange(a, c.len() as int), k) == 0,
    decreases edition_words().len() - k,
{
    lemma_edition_words_plain();
    if k < edition_words().len() {
        let u = c.subrange(a, c.len() as int);
        let w = edition_words()[k as int];
        if ends_with_word(u, w) {
            assert(u.subrange(u.len() - w.len(), u.len() as int) =~= c.subrange(
                c.len() - w.len(),
                c.len() as int,
            ));
            assert(u[u.len() - w.len() - 1] == c[c.len() - w.len() - 1]);
        }
        lemma_suffix_editions(c, a, k + 1);
    }
}

proof fn lemma_trim_canonical(c: Seq<char>)
    requires
        no_symbols(c),
        single_spaced(c),
        c.len() > 0 ==> !is_space(c.last()),
        edition_suffix_from(c, 0) == 0,
    ensures
        is_canonical(trim(c)),
{
    let u = trim_start(c);
    lemma_trim_start_suffix(c);
    lemma_trim_start_clean_start(c);
    let a = c.len() - u.len();
    if u.len() > 0 {
        assert(u.last() == c.last());
    }
    assert(trim_end(u) == u);
    assert forall|i: int| 0 <= i < u.len() implies !is_symbol(#[trigger] u[i]) by {
        assert(u[i] == c[a + i]);
    }
    assert forall|i: int| 0 <= i < u.len() && is_space(#[trigger] u[i]) implies u[i] == ' ' by {
        assert(u[i] == c[a + i]);
    }
    assert forall|i: int| 0 <= i < u.len() - 1 && #[trigger] u[i] == ' ' implies u[i + 1]
        != ' ' by {
        assert(u[i] == c[a + i]);
        assert(u[i + 1] == c[a + i + 1]);
    }
    lemma_suffix_editions(c, a, 0);
}

/// Every result of the pipeline is canonical.
proof fn lemma_normalize_canonical(s: Seq<char>)
    ensures
        is_canonical(normalize(s)),
{
    let s3 = strip_symbols(strip_years(strip_junk(s)));
    let s4 = strip_editions(s3);
    let s5 = collapse_spaces(s4);
    lemma_strip_symbols_clean(strip_years(strip_junk(s)));
    lemma_strip_editions_shape(s3);
    lemma_no_symbols_prefix(s3, s4.len() as int);
    lemma_collapse_clean(s4);
    lemma_collapse_editions(s4, 0);
    if s4.len() > 0 {
        lemma_collapse_end(s4);
    } else {
        assert(s5.len() == 0);
    }
    lemma_trim_canonical(s5);
}

/// The pipeline leaves a canonical name unchanged.
proof fn lemma_canonical_fixed(y: Seq<char>)
    requires
        is_canonical(y),
    ensures
        normalize(y) == y,
{
    lemma_strip_junk_fixed(y);
    lemma_strip_years_fixed(y);
    lemma_strip_symbols_fixed(y);
    assert(trim_end(y) == y);
    assert(strip_editions(y) == y);
    lemma_collapse_fixed(y);
    assert(trim_start(y) == y);
}

/// Normalising a canonical name again changes nothing:
/// `normalize(normalize(x)) == normalize(x)` for every input.
pub proof fn lemma_normalize_idempotent(s: Seq<char>)
    ensures
        normalize(normalize(s)) == normalize(s),
{
    lemma_normalize_canonical(s);
    lemma_canonical_fixed(normalize(s));
}


// ---------------------------------------------------------------------------
// Composition

/// `trace` runs from `input` to `r`, each value a result of the next function
/// applied to the one before.
pub open spec fn is_trace<T, F: Fn(T) -> T>(input: T, fs: Seq<F>, trace: Seq<T>, r: T) -> bool {
    &&& trace.len() == fs.len() + 1
    &&& trace[0] == input
    &&& trace.last() == r
    &&& forall|k: int| 0 <= k < fs.len() ==> call_ensures(fs[k], (trace[k],), #[trigger] trace[k + 1])
}

/// `r` is what applying `fs` in order to `input` can give.
pub open spec fn piped<T, F: Fn(T) -> T>(input: T, fs: Seq<F>, r: T) -> bool {
    exists|trace: Seq<T>| is_trace(input, fs, trace, r)
}

/// Applies `functions` in order, each to the result of the one before.
pub fn pipe<T, F: Fn(T) -> T>(input: T, functions: Vec<F>) -> (r: T)
    requires
        forall|i: int, x: T| 0 <= i < functions@.len() ==> #[trigger] call_requires(functions@[i], (x,)),
    ensures
        piped(input, functions@, r),
{
    let ghost fs = functions@;
    let mut acc = input;
    let ghost mut trace: Seq<T> = seq![acc];
    let mut i: usize = 0;
    while i < functions.len()
        invariant
            fs == functions@,
            i <= fs.len(),
            forall|j: int, x: T| 0 <= j < fs.len() ==> #[trigger] call_requires(fs[j], (x,)),
            is_trace(input, fs.take(i as int), trace, acc),
        decreases functions.len() - i,
    {
        let ghost prev = acc;
        acc = (functions[i])(acc);
        proof {
            let old_trace = trace;
            trace = trace.push(acc);
            assert forall|k: int| 0 <= k < fs.take(i + 1).len() implies call_ensures(
                fs.take(i + 1)[k],
                (trace[k],),
                #[trigger] trace[k + 1],
            ) by {
                if k < i {
                    assert(trace[k] == old_trace[k]);
                    assert(trace[k + 1] == old_trace[k + 1]);
                    assert(fs.take(i as int)[k] == fs[k]);
                }
            }
        }
        i = i + 1;
    }
    proof {
        assert(fs.take(fs.len() as int) =~= fs);
    }
    acc
}

} // verus!
