//! Credential rotation for the shared metadata-API key: call with the cached key;
//! after an authorization failure, refresh the key once and retry once; any other
//! outcome ends the call. The caller performs the calls and the refresh and feeds
//! their outcomes back; this machine decides what happens next.

use vstd::prelude::*;
use crate::text::occurs_at;

verus! {

/// How far one rotated call has got.
pub enum Phase {
    Ready,
    FirstAttempt,
    Refreshing,
    Retrying,
    Done,
}

/// The outcome of one call made with the key.
pub enum Outcome {
    Success,
    Unauthorized,
    Failed,
}

/// What the caller must do next.
pub enum RotationAction {
    /// Make the call with this key.
    Call(String),
    /// Fetch a fresh key and report it with `on_refreshed`.
    RefreshKey,
    /// Stop and hand back the outcome of the last call.
    Finish,
}

pub ghost struct RotationView {
    pub phase: Phase,
    pub key: Seq<char>,
    pub refreshes: nat,
    pub calls: nat,
}

pub open spec fn started(v: RotationView) -> RotationView {
    match v.phase {
        Phase::Ready => RotationView { phase: Phase::FirstAttempt, calls: v.calls + 1, ..v },
        _ => v,
    }
}

pub open spec fn after_outcome(v: RotationView, o: Outcome) -> RotationView {
    match v.phase {
        Phase::FirstAttempt => match o {
            Outcome::Unauthorized => RotationView { phase: Phase::Refreshing, ..v },
            _ => RotationView { phase: Phase::Done, ..v },
        },
        Phase::Retrying => RotationView { phase: Phase::Done, ..v },
        _ => v,
    }
}

/// A refresh that found no key keeps the old one for the retry.
pub open spec fn after_refresh(v: RotationView, fresh: Option<Seq<char>>) -> RotationView {
    match v.phase {
        Phase::Refreshing => RotationView {
            phase: Phase::Retrying,
            key: match fresh {
                Some(k) => k,
                None => v.key,
            },
            refreshes: v.refreshes + 1,
            calls: v.calls + 1,
        },
        _ => v,
    }
}

/// The action that a state asks for.
pub open spec fn action_matches(a: RotationAction, v: RotationView) -> bool {
    match v.phase {
        Phase::FirstAttempt | Phase::Retrying => a is Call && a->Call_0@ == v.key,
        Phase::Refreshing => a is RefreshKey,
        _ => a is Finish,
    }
}

pub struct KeyRotation {
    phase: Phase,
    key: String,
    refreshes: u32,
    calls: u32,
}

impl View for KeyRotation {
    type V = RotationView;

    closed spec fn view(&self) -> RotationView {
        RotationView {
            phase: self.phase,
            key: self.key@,
            refreshes: self.refreshes as nat,
            calls: self.calls as nat,
        }
    }
}

impl KeyRotation {
    /// Each rotated call refreshes at most once and calls at most twice.
    pub closed spec fn wf(self) -> bool {
        &&& self.refreshes <= 1
        &&& self.calls <= 2
        &&& match self.phase {
            Phase::Ready => self.calls == 0 && self.refreshes == 0,
            Phase::FirstAttempt | Phase::Refreshing => self.calls == 1 && self.refreshes == 0,
            Phase::Retrying => self.calls == 2 && self.refreshes == 1,
            Phase::Done => true,
        }
    }

    /// A rotation for one call, with the key cached now.
    pub fn new(cached_key: String) -> (r: KeyRotation)
        ensures
            r@ == (RotationView {
                phase: Phase::Ready,
                key: cached_key@,
                refreshes: 0,
                calls: 0,
            }),
            r.wf(),
    {
        KeyRotation { phase: Phase::Ready, key: cached_key, refreshes: 0, calls: 0 }
    }

    pub fn refreshes(&self) -> (r: u32)
        ensures
            r == self@.refreshes,
    {
        self.refreshes
    }

    pub fn calls(&self) -> (r: u32)
        ensures
            r == self@.calls,
    {
        self.calls
    }

    /// The key that the next call uses.
    pub fn key(&self) -> (r: String)
        ensures
            r@ == self@.key,
    {
        self.key.clone()
    }

    fn action(&self) -> (r: RotationAction)
        ensures
            action_matches(r, self@),
    {
        match self.phase {
            Phase::FirstAttempt | Phase::Retrying => RotationAction::Call(self.key.clone()),
            Phase::Refreshing => RotationAction::RefreshKey,
            _ => RotationAction::Finish,
        }
    }

    /// Begins: the first call uses the cached key.
    pub fn start(&mut self) -> (r: RotationAction)
        requires
            old(self).wf(),
        ensures
            final(self)@ == started(old(self)@),
            final(self).wf(),
            action_matches(r, final(self)@),
    {
        match self.phase {
            Phase::Ready => {
                self.phase = Phase::FirstAttempt;
                self.calls = self.calls + 1;
            },
            _ => {},
        }
        self.action()
    }

    /// Takes the outcome of the call just made.
    pub fn on_outcome(&mut self, outcome: Outcome) -> (r: RotationAction)
        requires
            old(self).wf(),
        ensures
            final(self)@ == after_outcome(old(self)@, outcome),
            final(self).wf(),
            action_matches(r, final(self)@),
    {
        match self.phase {
            Phase::FirstAttempt => match outcome {
                Outcome::Unauthorized => self.phase = Phase::Refreshing,
                _ => self.phase = Phase::Done,
            },
            Phase::Retrying => self.phase = Phase::Done,
            _ => {},
        }
        self.action()
    }

    /// Takes the key that the refresh found, if it found one.
    pub fn on_refreshed(&mut self, fresh: Option<String>) -> (r: RotationAction)
        requires
            old(self).wf(),
        ensures
            final(self)@ == after_refresh(
                old(self)@,
                match fresh {
                    Some(k) => Some(k@),
                    None => None,
                },
            ),
            final(self).wf(),
            action_matches(r, final(self)@),
    {
        match self.phase {
            Phase::Refreshing => {
                match fresh {
                    Some(k) => self.key = k,
                    None => {},
                }
                self.phase = Phase::Retrying;
                self.refreshes = self.refreshes + 1;
                self.calls = self.calls + 1;
            },
            _ => {},
        }
        self.action()
    }
}

/// A call that is refused once for authorization and then succeeds: the rotation
/// refreshes the key exactly once, retries exactly once with the refreshed key,
/// and then finishes with that success.
pub proof fn lemma_rotation_refreshes_once(cached: Seq<char>, fresh: Option<Seq<char>>)
    ensures
        ({
            let v0 = RotationView { phase: Phase::Ready, key: cached, refreshes: 0, calls: 0 };
            let v1 = started(v0);
            let v2 = after_outcome(v1, Outcome::Unauthorized);
            let v3 = after_refresh(v2, fresh);
            let v4 = after_outcome(v3, Outcome::Success);
            &&& v1.phase is FirstAttempt && v1.key == cached
            &&& v2.phase is Refreshing
            &&& v3.phase is Retrying && v3.key == (match fresh {
                Some(k) => k,
                None => cached,
            })
            &&& v4.phase is Done
            &&& v4.refreshes == 1
            &&& v4.calls == 2
        }),
{
}

/// Whatever the outcomes, a rotated call makes at most two calls and one refresh.
pub proof fn lemma_rotation_bounded(k: KeyRotation)
    requires
        k.wf(),
    ensures
        k@.calls <= 2,
        k@.refreshes <= 1,
{
}


// ---------------------------------------------------------------------------
// Where a fresh key comes from: a public page embeds it as `"rawgApiKey":"<key>"`.

/// The text before the key: `"rawgApiKey":"`.
pub open spec fn key_marker() -> Seq<char> {
    seq!['"', 'r', 'a', 'w', 'g', 'A', 'p', 'i', 'K', 'e', 'y', '"', ':', '"']
}

pub open spec fn is_key_char(c: char) -> bool {
    ('a' <= c && c <= 'z') || ('A' <= c && c <= 'Z') || ('0' <= c && c <= '9')
}

/// Length of the run of key characters that starts at `j`.
pub open spec fn key_run(s: Seq<char>, j: int) -> nat
    decreases s.len() - j,
{
    if 0 <= j < s.len() && is_key_char(s[j]) {
        1 + key_run(s, j + 1)
    } else {
        0
    }
}

/// The marker, one or more key characters and a closing quote start at `i`.
pub open spec fn key_match_at(s: Seq<char>, i: int) -> bool {
    let j = i + key_marker().len();
    &&& occurs_at(s, key_marker(), i)
    &&& key_run(s, j) > 0
    &&& j + key_run(s, j) < s.len()
    &&& s[j + key_run(s, j)] == '"'
}

/// The key of the leftmost match at or after `i`.
pub open spec fn key_from(s: Seq<char>, i: int) -> Option<Seq<char>>
    decreases s.len() - i,
{
    if i < 0 || i >= s.len() {
        None
    } else if key_match_at(s, i) {
        let j = i + key_marker().len();
        Some(s.subrange(j, j + key_run(s, j)))
    } else {
        key_from(s, i + 1)
    }
}

/// The key that the page embeds, taken from its leftmost occurrence.
pub open spec fn embedded_key(s: Seq<char>) -> Option<Seq<char>> {
    key_from(s, 0)
}

/// Relies on regex's `Regex::new` and `Regex::captures`, whose matches are
/// leftmost-first: the first group of the leftmost match of
/// `"rawgApiKey":"([a-zA-Z0-9]+)"`. At a given start the greedy run of key
/// characters must be followed by the quote, so the match there is unique.
#[verifier::external_body]
fn capture_api_key(page: &str) -> (r: Option<String>)
    ensures
        r.deep_view() == embedded_key(page@),
{
    let re = regex::Regex::new("\"rawgApiKey\":\"([a-zA-Z0-9]+)\"").ok()?;
    re.captures(page)?.get(1).map(|m| m.as_str().to_string())
}

/// Scrapes the shared API key out of the public page that embeds it.
pub fn api_key_from_page(page: &str) -> (r: Option<String>)
    ensures
        r.deep_view() == embedded_key(page@),
        r is Some ==> r->Some_0@.len() > 0,
{
    let r = capture_api_key(page);
    proof {
        if r is Some {
            lemma_embedded_key_nonempty(page@, 0);
        }
    }
    r
}

proof fn lemma_embedded_key_nonempty(s: Seq<char>, i: int)
    requires
        key_from(s, i) is Some,
    ensures
        key_from(s, i)->Some_0.len() > 0,
    decreases s.len() - i,
{
    if 0 <= i < s.len() && !key_match_at(s, i) {
        lemma_embedded_key_nonempty(s, i + 1);
    }
}

} // verus!
