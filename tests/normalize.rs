use vek_torrents::normalize::{format_name, pipe};

fn norm(s: &str) -> String {
    format_name(s.to_string())
}

#[test]
fn example_title_is_reduced_to_the_game_name() {
    assert_eq!(norm("Game Name (2020) [GOTY Edition]!!"), "Game Name");
}

#[test]
fn normalizing_twice_changes_nothing() {
    let inputs = [
        "Game Name (2020) [GOTY Edition]!!",
        "  Half-Life:  Alyx  ",
        "Cyberpunk 2077 [FitGirl Repack]",
        "The Witcher 3 - Wild Hunt - Complete Edition",
        "Assassin's Creed® Valhalla – Ultimate Edition",
        "Deluxe",
        "",
        "!!!",
        "GOTY GOTY GOTY",
        "A\t\tB\nC",
        "\u{a0}Game\u{a0}\u{a0}Name\u{3000}",
        "Portal 2\u{a0}[FitGirl Repack]\u{a0}",
    ];
    for x in inputs {
        let once = norm(x);
        assert_eq!(format_name(once.clone()), once, "input {:?}", x);
    }
}

#[test]
fn junk_markers_are_removed() {
    assert_eq!(norm("Cyberpunk 2077 [FitGirl Repack]"), "Cyberpunk 2077");
    assert_eq!(norm("Elden Ring [DODI Repack]"), "Elden Ring");
    assert_eq!(norm("Doom (Portable)"), "Doom");
}

#[test]
fn release_year_in_parentheses_is_removed() {
    assert_eq!(norm("Prey (2017)"), "Prey");
    assert_eq!(norm("1917 Battle"), "1917 Battle");
    assert_eq!(norm("Game (v2017)"), "Game v2017");
}

#[test]
fn symbols_become_spaces_and_apostrophes_vanish() {
    assert_eq!(norm("Half-Life: Alyx"), "Half Life Alyx");
    assert_eq!(norm("Assassin's Creed"), "Assassins Creed");
    assert_eq!(norm("Tom Clancy’s Splinter Cell"), "Tom Clancys Splinter Cell");
}

#[test]
fn trailing_edition_words_are_cut() {
    assert_eq!(norm("The Witcher 3 - Wild Hunt - Complete Edition"), "The Witcher 3 Wild Hunt");
    assert_eq!(norm("Doom Eternal Deluxe Edition"), "Doom Eternal");
    assert_eq!(norm("Edition Wars"), "Edition Wars");
}

#[test]
fn a_lone_edition_word_stays() {
    assert_eq!(norm("Deluxe"), "Deluxe");
    assert_eq!(norm("Ultimate Edition"), "Ultimate");
}

#[test]
fn whitespace_is_collapsed_and_trimmed() {
    assert_eq!(norm("  A\t\tB\nC  "), "A B C");
    assert_eq!(norm(""), "");
    assert_eq!(norm("   "), "");
    assert_eq!(norm("!!!"), "");
}

#[test]
fn non_ascii_titles_are_kept() {
    assert_eq!(norm("Ведьмак 3 по сети"), "Ведьмак 3 по сети");
}

fn add_one(x: i32) -> i32 {
    x + 1
}

fn double(x: i32) -> i32 {
    x * 2
}

#[test]
fn pipe_applies_functions_in_order() {
    let fs: Vec<fn(i32) -> i32> = vec![add_one, double];
    assert_eq!(pipe(3, fs), 8);
    let gs: Vec<fn(i32) -> i32> = vec![double, add_one];
    assert_eq!(pipe(3, gs), 7);
    let none: Vec<fn(i32) -> i32> = vec![];
    assert_eq!(pipe(3, none), 3);
}

#[test]
fn unicode_whitespace_is_collapsed_and_trimmed() {
    assert_eq!(norm("\u{a0}"), "");
    assert_eq!(norm("\u{a0}Game\u{a0}\u{a0}Name\u{3000}"), "Game Name");
    assert_eq!(norm("Half\u{2009}Life\u{202f}\u{205f}2"), "Half Life 2");
    assert_eq!(norm("Doom\u{a0}Deluxe\u{a0}Edition\u{a0}"), "Doom");
    assert_eq!(norm("\u{85}Quake\u{2028}"), "Quake");
}
