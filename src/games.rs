//! Requests to the game-metadata API, and the addresses they are sent to. The
//! calls themselves, and the key they carry, are the caller's (see `rotation`).

use vstd::prelude::*;
use crate::text::{chars_of, decimal, push_decimal, push_signed, push_str, signed_decimal, string_from_chars};

verus! {

/// The token set that the login endpoint receives.
#[derive(Clone)]
pub struct LoginRequest {
    pub token_type: String,
    pub access_token: String,
    pub refresh_token: String,
    pub expires_in: i32,
    pub scope: String,
}

#[derive(Clone)]
pub struct GameListRequest {
    pub page: Option<usize>,
    pub next: Option<String>,
}

#[derive(Clone)]
pub struct GameSearchRequest {
    pub query: String,
    pub next: Option<String>,
}

#[derive(Clone)]
pub struct GameDetailsRequest {
    pub id: i32,
}

#[derive(Clone)]
pub struct GameScreenshotsRequest {
    pub page: Option<usize>,
    pub next: Option<String>,
}

#[derive(Clone)]
pub struct GameMoviesRequest {
    pub page: Option<usize>,
    pub next: Option<String>,
}

pub open spec fn base_url() -> Seq<char> {
    "https://api.rawg.io/api/"@
}

/// The page asked for, 1 when none is.
pub open spec fn page_or_first(page: Option<usize>) -> nat {
    match page {
        Some(p) => p as nat,
        None => 1,
    }
}

pub struct GamesService {}

impl GamesService {
    /// The given continuation address, or the first-page listing address.
    pub fn game_list_url(api_key: &str, request: &GameListRequest) -> (r: String)
        ensures
            r@ == match request.next {
                Some(n) => n@,
                None => base_url() + "games?key="@ + api_key@ + "&page="@ + decimal(
                    page_or_first(request.page),
                ) + "&page_size=10&play_on_desktop=true"@,
            },
    {
        match &request.next {
            Some(n) => n.clone(),
            None => {
                let mut v = chars_of("https://api.rawg.io/api/");
                push_str(&mut v, "games?key=");
                push_str(&mut v, api_key);
                push_str(&mut v, "&page=");
                let page: usize = match request.page {
                    Some(p) => p,
                    None => 1,
                };
                push_decimal(&mut v, page as u64);
                push_str(&mut v, "&page_size=10&play_on_desktop=true");
                string_from_chars(&v)
            },
        }
    }

    /// The given continuation address, or the search address for the query.
    pub fn search_game_url(api_key: &str, request: &GameSearchRequest) -> (r: String)
        ensures
            r@ == match request.next {
                Some(n) => n@,
                None => base_url() + "games?search="@ + request.query@ + "&key="@ + api_key@,
            },
    {
        match &request.next {
            Some(n) => n.clone(),
            None => {
                let mut v = chars_of("https://api.rawg.io/api/");
                push_str(&mut v, "games?search=");
                push_str(&mut v, request.query.as_str());
                push_str(&mut v, "&key=");
                push_str(&mut v, api_key);
                string_from_chars(&v)
            },
        }
    }

    pub fn game_details_url(api_key: &str, request: &GameDetailsRequest) -> (r: String)
        ensures
            r@ == base_url() + "games/"@ + signed_decimal(request.id as int) + "?key="@ + api_key@,
    {
        let mut v = chars_of("https://api.rawg.io/api/");
        push_str(&mut v, "games/");
        push_signed(&mut v, request.id);
        push_str(&mut v, "?key=");
        push_str(&mut v, api_key);
        string_from_chars(&v)
    }

    fn media_url(api_key: &str, id: i32, kind: &str, page: Option<usize>) -> (r: String)
        ensures
            r@ == base_url() + "games/"@ + signed_decimal(id as int) + kind@ + "?key="@ + api_key@
                + "&page="@ + decimal(page_or_first(page)),
    {
        let mut v = chars_of("https://api.rawg.io/api/");
        push_str(&mut v, "games/");
        push_signed(&mut v, id);
        push_str(&mut v, kind);
        push_str(&mut v, "?key=");
        push_str(&mut v, api_key);
        push_str(&mut v, "&page=");
        let p: usize = match page {
            Some(p) => p,
            None => 1,
        };
        push_decimal(&mut v, p as u64);
        string_from_chars(&v)
    }

    /// The screenshots address of a game; a continuation address is not used here.
    pub fn game_screenshots_url(api_key: &str, id: i32, request: &GameScreenshotsRequest) -> (r:
        String)
        ensures
            r@ == base_url() + "games/"@ + signed_decimal(id as int) + "/screenshots"@ + "?key="@
                + api_key@ + "&page="@ + decimal(page_or_first(request.page)),
    {
        GamesService::media_url(api_key, id, "/screenshots", request.page)
    }

    /// The trailers address of a game; a continuation address is not used here.
    pub fn game_movies_url(api_key: &str, id: i32, request: &GameMoviesRequest) -> (r: String)
        ensures
            r@ == base_url() + "games/"@ + signed_decimal(id as int) + "/movies"@ + "?key="@
                + api_key@ + "&page="@ + decimal(page_or_first(request.page)),
    {
        GamesService::media_url(api_key, id, "/movies", request.page)
    }
}

} // verus!
