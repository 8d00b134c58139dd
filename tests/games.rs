use vek_torrents::games::{
    GameDetailsRequest, GameListRequest, GameMoviesRequest, GameScreenshotsRequest,
    GameSearchRequest, GamesService,
};

#[test]
fn game_list_url_defaults_to_first_page() {
    let r = GameListRequest { page: None, next: None };
    assert_eq!(
        GamesService::game_list_url("KEY", &r),
        "https://api.rawg.io/api/games?key=KEY&page=1&page_size=10&play_on_desktop=true"
    );
    let r = GameListRequest { page: Some(12), next: None };
    assert_eq!(
        GamesService::game_list_url("KEY", &r),
        "https://api.rawg.io/api/games?key=KEY&page=12&page_size=10&play_on_desktop=true"
    );
}

#[test]
fn continuation_address_is_used_as_given() {
    let r = GameListRequest { page: Some(3), next: Some("https://next/page".to_string()) };
    assert_eq!(GamesService::game_list_url("KEY", &r), "https://next/page");
    let s = GameSearchRequest { query: "halo".to_string(), next: Some("https://n".to_string()) };
    assert_eq!(GamesService::search_game_url("KEY", &s), "https://n");
}

#[test]
fn search_details_and_media_urls() {
    let s = GameSearchRequest { query: "portal".to_string(), next: None };
    assert_eq!(
        GamesService::search_game_url("KEY", &s),
        "https://api.rawg.io/api/games?search=portal&key=KEY"
    );
    assert_eq!(
        GamesService::game_details_url("KEY", &GameDetailsRequest { id: 3498 }),
        "https://api.rawg.io/api/games/3498?key=KEY"
    );
    assert_eq!(
        GamesService::game_details_url("KEY", &GameDetailsRequest { id: -5 }),
        "https://api.rawg.io/api/games/-5?key=KEY"
    );
    let sc = GameScreenshotsRequest { page: None, next: Some("ignored".to_string()) };
    assert_eq!(
        GamesService::game_screenshots_url("KEY", 7, &sc),
        "https://api.rawg.io/api/games/7/screenshots?key=KEY&page=1"
    );
    let mv = GameMoviesRequest { page: Some(2), next: None };
    assert_eq!(
        GamesService::game_movies_url("KEY", 0, &mv),
        "https://api.rawg.io/api/games/0/movies?key=KEY&page=2"
    );
}
