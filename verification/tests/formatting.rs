//! Display formatting, URL sizing, and the model plumbing around the cards
//! and pages.

use linn::cards::PlaylistCardData;
use linn::cards::truncate_text;
use linn::image_size::ImageSize;
use linn::pages::DiscoverPage;
use linn::pages::FavoritesPage;
use linn::pages::LikedSongsPage;
use linn::playlist::Playlist;
use linn::song::Album;
use linn::song::Artist;
use linn::song::Song;
use linn::sorting::SortField;
use linn::sorting::SortOrder;

fn song(duration: u64, size: Option<u64>, artists: Vec<Artist>, album: &str) -> Song {
    Song {
        id: 1,
        name: "Test Song".to_string(),
        artists,
        album: Album { id: 1, name: album.to_string() },
        duration,
        size,
        copyright_id: 0,
        cover_url: String::new(),
    }
}

#[test]
fn test_artists_string() {
    let s = song(
        180000,
        None,
        vec![
            Artist { id: 1, name: "Artist A".to_string() },
            Artist { id: 2, name: "Artist B".to_string() },
        ],
        "Test Album",
    );
    assert_eq!(s.artists_string(), "Artist A / Artist B");
}

#[test]
fn test_format_duration() {
    let s = song(185000, None, vec![Artist { id: 1, name: "Artist".to_string() }], "Album");
    assert_eq!(s.format_duration(), "03:05");
}

#[test]
fn test_format_size() {
    let s = song(
        180000,
        Some(1024 * 1024 * 5),
        vec![Artist { id: 1, name: "Artist".to_string() }],
        "Album",
    );
    assert_eq!(s.format_size(), Some("5.0 MB".to_string()));
}

#[test]
fn format_duration_pads_and_grows() {
    let short = song(59999, None, vec![], "Album");
    assert_eq!(short.format_duration(), "00:59");
    let long = song(6000000, None, vec![], "Album");
    assert_eq!(long.format_duration(), "100:00");
}

#[test]
fn format_duration_zero() {
    let s = song(0, None, vec![], "Album");
    assert_eq!(s.format_duration(), "00:00");
}

#[test]
fn hex_writes_two_digits_per_byte() {
    assert_eq!(linn::disk_store::bytes_to_hex(&vec![0x00, 0xff, 0x3b]), "00ff3b");
    assert_eq!(linn::disk_store::bytes_to_hex(&vec![]), "");
}

#[test]
fn format_size_units_and_rounding() {
    assert_eq!(song(0, Some(1023), vec![], "A").format_size(), Some("1023 B".to_string()));
    assert_eq!(song(0, Some(1024), vec![], "A").format_size(), Some("1.0 KB".to_string()));
    // 1280 / 1024 = 1.25 exactly: ties round to even, so 1.2.
    assert_eq!(song(0, Some(1280), vec![], "A").format_size(), Some("1.2 KB".to_string()));
    assert_eq!(song(0, Some(1134), vec![], "A").format_size(), Some("1.1 KB".to_string()));
    assert_eq!(song(0, None, vec![], "A").format_size(), None);
}

#[test]
fn artists_string_single_and_empty() {
    let one = song(0, None, vec![Artist { id: 1, name: "Solo".to_string() }], "A");
    assert_eq!(one.artists_string(), "Solo");
    let none = song(0, None, vec![], "A");
    assert_eq!(none.artists_string(), "");
}

#[test]
fn test_apply_to_url() {
    let url = "http://p1.music.126.net/test.jpg";
    assert_eq!(
        ImageSize::Small.apply_to_url(url),
        "http://p1.music.126.net/test.jpg?param=200x200"
    );
}

#[test]
fn test_apply_to_url_with_existing_params() {
    let url = "http://p1.music.126.net/test.jpg?foo=bar";
    assert_eq!(
        ImageSize::Small.apply_to_url(url),
        "http://p1.music.126.net/test.jpg?foo=bar&param=200x200"
    );
}

#[test]
fn apply_to_url_original_is_unchanged() {
    let url = "http://p1.music.126.net/test.jpg";
    assert_eq!(ImageSize::Original.apply_to_url(url), url);
}

#[test]
fn tier_round_trips_through_param_string() {
    let tiers = [
        ImageSize::Thumbnail,
        ImageSize::Small,
        ImageSize::Medium,
        ImageSize::Large,
    ];
    for t in tiers {
        let param = t.param_string().unwrap();
        assert_eq!(ImageSize::from_param(param.as_str()), t);
    }
    assert!(ImageSize::Original.param_string().is_none());
    assert_eq!(ImageSize::from_param("999x999"), ImageSize::Original);
}

#[test]
fn tier_ranks_and_dimensions() {
    assert_eq!(ImageSize::Thumbnail.to_rank(), 0);
    assert_eq!(ImageSize::Small.to_rank(), 1);
    assert_eq!(ImageSize::Medium.to_rank(), 2);
    assert_eq!(ImageSize::Large.to_rank(), 3);
    assert_eq!(ImageSize::Original.to_rank(), 4);
    assert_eq!(ImageSize::Thumbnail.dimensions(), Some((100, 100)));
    assert_eq!(ImageSize::Large.dimensions(), Some((800, 800)));
    assert_eq!(ImageSize::Original.dimensions(), None);
}

#[test]
fn test_truncate_text_short() {
    assert_eq!(truncate_text("Short", 10), "Short");
}

#[test]
fn test_truncate_text_long() {
    assert_eq!(truncate_text("This is a very long text", 10), "This is...");
}

#[test]
fn test_truncate_text_exact() {
    assert_eq!(truncate_text("Exact", 5), "Exact");
}

#[test]
fn test_truncate_text_very_short() {
    assert_eq!(truncate_text("Hi", 2), "Hi");
}

#[test]
fn sort_order_toggles_in_a_cycle() {
    assert_eq!(SortOrder::Default.toggle(), SortOrder::Asc);
    assert_eq!(SortOrder::Asc.toggle(), SortOrder::Desc);
    assert_eq!(SortOrder::Desc.toggle(), SortOrder::Default);
    assert_eq!(SortOrder::Default.arrow_symbol(), "");
    assert_eq!(SortOrder::Asc.arrow_symbol(), " ↑");
    assert_eq!(SortOrder::Desc.arrow_symbol(), " ↓");
}

#[test]
fn sort_fields_enumerate_with_labels() {
    let fields = SortField::all_fields();
    assert_eq!(fields.len(), 7);
    assert_eq!(fields[0], SortField::Default);
    assert_eq!(fields[1], SortField::Title);
    assert_eq!(fields[6], SortField::CreateTime);
    assert_eq!(SortField::Title.display_name(), "歌名");
    assert_eq!(SortField::default(), SortField::Default);
    assert_eq!(SortOrder::default(), SortOrder::Default);
}

#[test]
fn page_titles_and_descriptions() {
    assert_eq!(DiscoverPage::title(), "发现音乐");
    assert_eq!(FavoritesPage::title(), "我的收藏");
    assert_eq!(LikedSongsPage::title(), "我喜欢的音乐");
    assert_eq!(DiscoverPage::description(), "探索新歌、排行榜、歌单和更多内容");
    let _ = DiscoverPage::new();
    let _ = FavoritesPage::new();
    let _ = LikedSongsPage::new();
}

#[test]
fn playlist_card_copies_playlist_fields() {
    let p = Playlist {
        id: 42,
        name: "Mix".to_string(),
        cover_url: "http://cdn/c.jpg".to_string(),
        creator: "someone".to_string(),
    };
    let card = PlaylistCardData::from(&p);
    assert_eq!(card.id, 42);
    assert_eq!(card.name, "Mix");
    assert_eq!(card.cover_url, "http://cdn/c.jpg");
    assert_eq!(card.creator, "someone");
}
