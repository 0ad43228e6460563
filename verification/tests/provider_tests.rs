use plz::providers::{
    extract_game3rb_links, extract_game3rb_page, extract_gog_games, extract_steamrip,
    game3rb_url, gog_games_url, is_not_found_status, normalize_game_name, steamrip_url,
};

#[test]
fn game_name_is_normalized_with_dashes() {
    assert_eq!(normalize_game_name("cool game two"), "cool-game-two");
    assert_eq!(normalize_game_name("solo"), "solo");
}

#[test]
fn provider_urls_are_exact() {
    assert_eq!(steamrip_url("cool-game"), "https://steamrip.com/cool-game");
    assert_eq!(game3rb_url("cool-game"), "https://game3rb.com/cool-game");
    assert_eq!(gog_games_url("cool-game"), "https://gog-games.to/game/cool_game");
}

#[test]
fn only_404_counts_as_not_found() {
    assert!(is_not_found_status(404));
    assert!(!is_not_found_status(200));
    assert!(!is_not_found_status(500));
}

#[test]
fn steamrip_page_yields_title_and_labeled_entries() {
    let page = "<html><body>\
        <h1 class=\"post-title\">Cool Game Free Download</h1>\
        <a class=\"shortc-button\" href=\"//example.com/dl\">one</a>\
        <a class=\"shortc-button\" href=\"//mirror.org/y\">two</a>\
        </body></html>";
    let fr = extract_steamrip(page).unwrap();
    assert_eq!(fr.title, "Cool Game");
    assert_eq!(
        fr.entries,
        vec![
            ("Example".to_string(), "https://example.com/dl".to_string()),
            ("Mirror".to_string(), "https://mirror.org/y".to_string()),
        ]
    );
}

#[test]
fn steamrip_page_without_title_is_rejected() {
    let page = "<html><body><p>nothing here</p></body></html>";
    assert!(extract_steamrip(page).is_none());
}

#[test]
fn steamrip_link_without_dot_is_skipped() {
    let page = "<html><body>\
        <h1 class=\"post-title\">G Free Download</h1>\
        <a class=\"shortc-button\" href=\"//nodothost/dl\">one</a>\
        </body></html>";
    let fr = extract_steamrip(page).unwrap();
    assert_eq!(fr.title, "G");
    assert!(fr.entries.is_empty());
}

#[test]
fn game3rb_page_yields_cleaned_title_and_links_page() {
    let page = "<html><body>\
        <h1 class=\"post-title\"> Download Cool Game + OnLine </h1>\
        <a id=\"download-link\" class=\"direct\" href=\"https://links.example/page\">get</a>\
        </body></html>";
    let (title, link) = extract_game3rb_page(page).unwrap();
    assert_eq!(title, "Cool Game + Online");
    assert_eq!(link, "https://links.example/page");
}

#[test]
fn game3rb_page_without_direct_link_is_rejected() {
    let page = "<html><body><h1 class=\"post-title\">Download X</h1></body></html>";
    assert!(extract_game3rb_page(page).is_none());
}

#[test]
fn game3rb_links_page_yields_labeled_hosts() {
    let page = "<html><body><ol>\
        <li><a href=\"https://www.example.com/x\">a</a></li>\
        <li><a href=\"https://mirror.net/f\">b</a></li>\
        <li><a href=\"no-scheme\">c</a></li>\
        </ol></body></html>";
    let entries = extract_game3rb_links(page);
    assert_eq!(
        entries,
        vec![
            ("Example".to_string(), "https://www.example.com/x".to_string()),
            ("Mirror".to_string(), "https://mirror.net/f".to_string()),
        ]
    );
}

#[test]
fn gog_page_yields_grouped_entries_in_order() {
    let page = "<html><body>\
        <div class=\"index\"><h1>Cool Game</h1></div>\
        <div class=\"items-links-block\"><div>\
        <div class=\"title\">Links</div>\
        <div class=\"item-expand wrap\">\
        <label title=\"Part 1\"></label>\
        <div class=\"items-group\"><a href=\"https://h.example/1\">d</a></div>\
        </div>\
        <div class=\"item-expand wrap\">\
        <label title=\"Part 2\"></label>\
        <div class=\"items-group\"><a href=\"https://h.example/2\">d</a></div>\
        </div>\
        </div></div>\
        </body></html>";
    let fr = extract_gog_games(page).unwrap();
    assert_eq!(fr.title, "Cool Game");
    assert_eq!(
        fr.entries,
        vec![
            ("Part 1".to_string(), "https://h.example/1".to_string()),
            ("Part 2".to_string(), "https://h.example/2".to_string()),
        ]
    );
}

#[test]
fn gog_page_without_title_is_rejected() {
    let page = "<html><body><div class=\"other\">x</div></body></html>";
    assert!(extract_gog_games(page).is_none());
}
