//! Local song-list sorting by each field and direction.

use linn::song::Album;
use linn::song::Artist;
use linn::song::PlaylistDetail;
use linn::song::Song;
use linn::song_sort::sort_playlist_detail;
use linn::song_sort::sort_songs;
use linn::sorting::SortField;
use linn::sorting::SortOrder;

fn create_test_songs() -> Vec<Song> {
    vec![
        Song {
            id: 1,
            name: "Zulu".to_string(),
            artists: vec![Artist { id: 1, name: "Artist Z".to_string() }],
            album: Album { id: 1, name: "Album B".to_string() },
            duration: 300000,
            size: Some(5000000),
            copyright_id: 0,
            cover_url: String::new(),
        },
        Song {
            id: 2,
            name: "Alpha".to_string(),
            artists: vec![Artist { id: 2, name: "Artist A".to_string() }],
            album: Album { id: 2, name: "Album A".to_string() },
            duration: 180000,
            size: Some(3000000),
            copyright_id: 0,
            cover_url: String::new(),
        },
        Song {
            id: 3,
            name: "Beta".to_string(),
            artists: vec![Artist { id: 3, name: "Artist B".to_string() }],
            album: Album { id: 3, name: "Album C".to_string() },
            duration: 240000,
            size: Some(4000000),
            copyright_id: 0,
            cover_url: String::new(),
        },
    ]
}

#[test]
fn test_sort_by_title_asc() {
    let mut songs = create_test_songs();
    sort_songs(&mut songs, SortField::Title, SortOrder::Asc);
    assert_eq!(songs[0].name, "Alpha");
    assert_eq!(songs[1].name, "Beta");
    assert_eq!(songs[2].name, "Zulu");
}

#[test]
fn test_sort_by_title_desc() {
    let mut songs = create_test_songs();
    sort_songs(&mut songs, SortField::Title, SortOrder::Desc);
    assert_eq!(songs[0].name, "Zulu");
    assert_eq!(songs[1].name, "Beta");
    assert_eq!(songs[2].name, "Alpha");
}

#[test]
fn test_sort_by_artist_asc() {
    let mut songs = create_test_songs();
    sort_songs(&mut songs, SortField::Artist, SortOrder::Asc);
    assert_eq!(songs[0].artists[0].name, "Artist A");
    assert_eq!(songs[1].artists[0].name, "Artist B");
    assert_eq!(songs[2].artists[0].name, "Artist Z");
}

#[test]
fn test_sort_by_album_asc() {
    let mut songs = create_test_songs();
    sort_songs(&mut songs, SortField::Album, SortOrder::Asc);
    assert_eq!(songs[0].album.name, "Album A");
    assert_eq!(songs[1].album.name, "Album B");
    assert_eq!(songs[2].album.name, "Album C");
}

#[test]
fn test_sort_by_duration_asc() {
    let mut songs = create_test_songs();
    sort_songs(&mut songs, SortField::Duration, SortOrder::Asc);
    assert_eq!(songs[0].duration, 180000);
    assert_eq!(songs[1].duration, 240000);
    assert_eq!(songs[2].duration, 300000);
}

#[test]
fn test_sort_by_duration_desc() {
    let mut songs = create_test_songs();
    sort_songs(&mut songs, SortField::Duration, SortOrder::Desc);
    assert!(songs[0].duration > songs[1].duration);
    assert!(songs[1].duration > songs[2].duration);
}

#[test]
fn test_sort_by_size_asc() {
    let mut songs = create_test_songs();
    sort_songs(&mut songs, SortField::Size, SortOrder::Asc);
    assert_eq!(songs[0].size, Some(3000000));
    assert_eq!(songs[1].size, Some(4000000));
    assert_eq!(songs[2].size, Some(5000000));
}

#[test]
fn test_sort_default_does_nothing() {
    let mut songs = create_test_songs();
    let original_order: Vec<u64> = songs.iter().map(|s| s.id).collect();

    sort_songs(&mut songs, SortField::Default, SortOrder::Asc);

    let new_order: Vec<u64> = songs.iter().map(|s| s.id).collect();
    assert_eq!(original_order, new_order);
}

#[test]
fn test_sort_order_default_does_nothing() {
    let mut songs = create_test_songs();
    let original_order: Vec<u64> = songs.iter().map(|s| s.id).collect();

    sort_songs(&mut songs, SortField::Title, SortOrder::Default);

    let new_order: Vec<u64> = songs.iter().map(|s| s.id).collect();
    assert_eq!(original_order, new_order);
}

#[test]
fn sort_playlist_detail_sorts_its_songs() {
    let detail = PlaylistDetail {
        id: 9,
        name: "Mix".to_string(),
        cover_url: String::new(),
        description: String::new(),
        songs: create_test_songs(),
    };
    let sorted = sort_playlist_detail(detail, SortField::Title, SortOrder::Asc);
    assert_eq!(sorted.id, 9);
    assert_eq!(sorted.name, "Mix");
    assert_eq!(sorted.songs[0].name, "Alpha");
    assert_eq!(sorted.songs[2].name, "Zulu");
}
