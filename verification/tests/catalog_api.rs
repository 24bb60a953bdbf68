use wrapper_rust::catalog::{artwork_step, ArtworkSource};
use wrapper_rust::catalog::{
    album_detail_to_subsonic, album_summary_with_songs, album_track_to_subsonic,
    artwork_descriptor, lyrics_target, release_year, search_album_to_subsonic,
    search_artist_to_subsonic, search_song_to_subsonic, unique_artist_albums, CatalogItem,
};

fn item(id: &str, name: &str) -> CatalogItem {
    CatalogItem {
        id: Some(id.to_string()),
        name: Some(name.to_string()),
        artist_name: None,
        album_name: None,
        artwork_url: None,
        track_count: None,
        release_date: None,
        first_genre: None,
        duration_millis: None,
        track_number: None,
        disc_number: None,
        album_relation_id: None,
        artist_relation_id: None,
        catalog_id: None,
    }
}

#[test]
fn release_year_reads_the_first_four_characters() {
    assert_eq!(release_year(&Some("2021-03-04".to_string())), Some(2021));
    assert_eq!(release_year(&Some("-123".to_string())), Some(-123));
    assert_eq!(release_year(&Some("20x1".to_string())), None);
    assert_eq!(release_year(&Some("202".to_string())), None);
    assert_eq!(release_year(&None), None);
}

#[test]
fn search_artist_uses_artwork_for_cover_and_image() {
    let mut a = item("ar1", "Band");
    let plain = search_artist_to_subsonic(&a);
    assert_eq!((plain.id.as_str(), plain.name.as_str()), ("ar1", "Band"));
    assert_eq!(plain.cover_art, None);
    assert_eq!(plain.artist_image_url, None);
    a.artwork_url = Some("https://img/{w}x{h}bb.jpg".to_string());
    let with_art = search_artist_to_subsonic(&a);
    assert_eq!(with_art.cover_art.as_deref(), Some("ar1"));
    assert_eq!(with_art.artist_image_url.as_deref(), Some("https://img/1200x1200bb.jpg"));
    a.artwork_url = Some(String::new());
    assert_eq!(search_artist_to_subsonic(&a).cover_art, None);
}

#[test]
fn search_album_carries_counts_dates_and_genre() {
    let mut al = item("al1", "Record");
    al.artist_name = Some("Band".into());
    al.track_count = Some(12);
    al.release_date = Some("2019-05-01".into());
    al.first_genre = Some("Rock".into());
    al.artwork_url = Some("x/{w}".into());
    let a = search_album_to_subsonic(&al);
    assert_eq!(a.artist, "Band");
    assert_eq!(a.artist_id, None);
    assert_eq!(a.cover_art.as_deref(), Some("al1"));
    assert_eq!(a.song_count, Some(12));
    assert_eq!(a.duration, None);
    assert_eq!(a.year, Some(2019));
    assert_eq!(a.created.as_deref(), Some("2019-05-01T00:00:00"));
    assert_eq!(a.genre.as_deref(), Some("Rock"));
}

#[test]
fn search_song_takes_album_relation_as_parent() {
    let mut s = item("so1", "Tune");
    s.album_relation_id = Some("al9".into());
    s.duration_millis = Some(185_999);
    s.track_number = Some(3);
    s.disc_number = Some(1);
    let song = search_song_to_subsonic(&s);
    assert_eq!(song.parent.as_deref(), Some("al9"));
    assert_eq!(song.album_id.as_deref(), Some("al9"));
    assert_eq!(song.cover_art.as_deref(), Some("al9"));
    assert_eq!(song.duration, Some(185));
    assert_eq!((song.track, song.disc_number), (Some(3), Some(1)));
    assert_eq!((song.suffix, song.content_type), ("m4a", "audio/mp4"));

    let mut lone = item("so2", "Solo");
    lone.artwork_url = Some("art".into());
    let song = search_song_to_subsonic(&lone);
    assert_eq!(song.parent, None);
    assert_eq!(song.cover_art.as_deref(), Some("so2"));
}

#[test]
fn album_track_prefers_the_catalog_id() {
    let mut t = item("tr1", "Track");
    t.album_relation_id = Some("rel".into());
    t.catalog_id = Some("cat".into());
    let song = album_track_to_subsonic(&t);
    assert_eq!(song.album_id.as_deref(), Some("cat"));
    assert_eq!(song.parent.as_deref(), Some("cat"));
    t.catalog_id = None;
    assert_eq!(album_track_to_subsonic(&t).album_id.as_deref(), Some("rel"));
}

#[test]
fn album_detail_needs_id_and_name() {
    let mut al = item("al1", "Record");
    al.artist_relation_id = Some("ar1".into());
    let a = album_detail_to_subsonic(&al, 7).expect("album");
    assert_eq!(a.song_count, Some(7));
    assert_eq!(a.artist_id.as_deref(), Some("ar1"));
    al.name = None;
    assert!(album_detail_to_subsonic(&al, 7).is_none());
}

#[test]
fn artist_albums_keep_the_first_of_each_id() {
    let artist = item("ar1", "Band");
    let views = vec![
        vec![item("a", "First A"), item("b", "B")],
        vec![item("a", "Second A"), item("c", "C")],
    ];
    let (name, image, albums) = unique_artist_albums(&artist, &views);
    assert_eq!(name, "Band");
    assert_eq!(image, None);
    let ids: Vec<&str> = albums.iter().map(|a| a.id.as_str()).collect();
    assert_eq!(ids, vec!["a", "b", "c"]);
    assert_eq!(albums[0].name, "First A");
}

#[test]
fn album_summary_sums_track_durations() {
    let album = item("al1", "Record");
    let mut t1 = item("t1", "One");
    t1.duration_millis = Some(61_000);
    let mut t2 = item("t2", "Two");
    t2.duration_millis = Some(1_500);
    let t3 = item("t3", "Three");
    let (a, songs) = album_summary_with_songs(&album, &vec![t1, t2, t3]).expect("summary");
    assert_eq!(a.song_count, Some(3));
    assert_eq!(a.duration, Some(62));
    assert_eq!(songs.len(), 3);
    assert_eq!(songs[1].id, "t2");
    let mut nameless = item("al2", "x");
    nameless.name = None;
    assert!(album_summary_with_songs(&nameless, &vec![]).is_none());
}

#[test]
fn lyrics_target_prefers_title_and_artist_then_title() {
    let mut a = item("1", "Song");
    a.artist_name = Some("Other".into());
    let mut b = item("2", "  SONG ");
    b.artist_name = Some("Band".into());
    let items = vec![a, b];
    assert_eq!(lyrics_target(&items, "song", Some(" band")), Some("2".to_string()));
    assert_eq!(lyrics_target(&items, "song", Some("nobody")), Some("1".to_string()));
    assert_eq!(lyrics_target(&items, "song", None), Some("1".to_string()));
    assert_eq!(lyrics_target(&items, "missing", None), None);
}

#[test]
fn artwork_descriptor_renders_the_size() {
    let d = artwork_descriptor(Some("u/{w}x{h}"), Some(600)).expect("descriptor");
    assert_eq!(d.url, "u/600x600");
    assert_eq!((d.width, d.height), (Some(600), Some(600)));
    let d = artwork_descriptor(Some("u/{w}x{h}"), Some(0)).expect("descriptor");
    assert_eq!(d.url, "u/1x1");
    assert!(artwork_descriptor(Some(""), None).is_none());
    assert!(artwork_descriptor(None, Some(1)).is_none());
}

#[test]
fn artwork_lookup_falls_back_from_song_to_album_to_artist() {
    let found = artwork_step(
        ArtworkSource::Song,
        Some(vec![None, Some("https://img/{w}x{h}bb.jpg".to_string())]),
        Some(300),
    )
    .expect("artwork");
    assert_eq!(found.url, "https://img/300x300bb.jpg");
    assert_eq!((found.width, found.height), (Some(300), Some(300)));
    assert_eq!(artwork_step(ArtworkSource::Song, None, None).err(), Some(Some(ArtworkSource::Album)));
    assert_eq!(
        artwork_step(ArtworkSource::Album, Some(vec![Some(String::new())]), None).err(),
        Some(Some(ArtworkSource::Artist))
    );
    assert_eq!(artwork_step(ArtworkSource::Artist, Some(vec![]), None).err(), Some(None));
}
