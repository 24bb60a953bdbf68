//! Catalog resources as the Subsonic API presents them: artists, albums and
//! songs built from what the catalog says of them, the albums of an artist
//! without repeats, album totals, and the song a lyrics request means.
use vstd::prelude::*;

use crate::subsonic::{artwork_url, render_artwork_url, SubsonicAlbum, SubsonicArtist, SubsonicSong};
use crate::text::{
    ascii_lower, chars_eq, chars_range, chars_to_string, count_digits, digit_run, digits_value,
    lower_chars, push_str, str_chars, strip_sign, trim, trim_chars,
};

verus! {

/// What the conversions read of one catalog resource (a search hit, a
/// track, an album or an artist); each field is absent when the resource
/// does not carry it as the expected JSON type.
#[derive(Clone, Debug)]
pub struct CatalogItem {
    /// `id`.
    pub id: Option<String>,
    /// `attributes.name`.
    pub name: Option<String>,
    /// `attributes.artistName`.
    pub artist_name: Option<String>,
    /// `attributes.albumName`.
    pub album_name: Option<String>,
    /// `attributes.artwork.url`.
    pub artwork_url: Option<String>,
    /// `attributes.trackCount`.
    pub track_count: Option<u64>,
    /// `attributes.releaseDate`.
    pub release_date: Option<String>,
    /// The first of `attributes.genreNames`, when it is a string.
    pub first_genre: Option<String>,
    /// `attributes.durationInMillis`.
    pub duration_millis: Option<u64>,
    /// `attributes.trackNumber`.
    pub track_number: Option<u64>,
    /// `attributes.discNumber`.
    pub disc_number: Option<u64>,
    /// `relationships.albums.data[0].id`.
    pub album_relation_id: Option<String>,
    /// `relationships.artists.data[0].id`.
    pub artist_relation_id: Option<String>,
    /// `attributes.playParams.catalogId`.
    pub catalog_id: Option<String>,
}

/// The view of an optional string.
pub open spec fn ov(o: Option<String>) -> Option<Seq<char>> {
    match o {
        Some(s) => Some(s@),
        None => None,
    }
}

/// A string field, empty when absent.
pub open spec fn or_empty(o: Option<String>) -> Seq<char> {
    match o {
        Some(s) => s@,
        None => Seq::empty(),
    }
}

/// An artwork template that is present and not empty.
pub open spec fn artwork_of(item: CatalogItem) -> Option<Seq<char>> {
    match item.artwork_url {
        Some(u) => if u@.len() > 0 {
            Some(u@)
        } else {
            None
        },
        None => None,
    }
}

/// A short signed decimal (at most four characters, so it cannot overflow).
pub open spec fn short_int(s: Seq<char>) -> Option<int> {
    let d = strip_sign(s);
    if d.len() > 0 && digit_run(d) == d.len() {
        Some(
            if s[0] == '-' {
                -(digits_value(d) as int)
            } else {
                digits_value(d) as int
            },
        )
    } else {
        None
    }
}

/// The year of a release date: its first four characters as a number.
pub open spec fn release_year_of(date: Option<String>) -> Option<i32> {
    match date {
        Some(d) => if d@.len() >= 4 {
            match short_int(d@.subrange(0, 4)) {
                Some(y) => Some(y as i32),
                None => None,
            }
        } else {
            None
        },
        None => None,
    }
}

/// A release date as a timestamp at midnight.
pub open spec fn created_of(date: Option<String>) -> Option<Seq<char>> {
    match date {
        Some(d) => Some(d@ + "T00:00:00"@),
        None => None,
    }
}

fn text_or_empty(o: &Option<String>) -> (s: String)
    ensures
        s@ == or_empty(*o),
{
    match o {
        Some(s) => s.clone(),
        None => String::new(),
    }
}

fn copy_opt(o: &Option<String>) -> (r: Option<String>)
    ensures
        ov(r) == ov(*o),
{
    match o {
        Some(s) => Some(s.clone()),
        None => None,
    }
}

fn artwork_template(item: &CatalogItem) -> (r: Option<String>)
    ensures
        ov(r) == artwork_of(*item),
{
    match &item.artwork_url {
        Some(u) => if str_chars(u.as_str()).len() > 0 {
            Some(u.clone())
        } else {
            None
        },
        None => None,
    }
}

/// The year of a release date.
pub fn release_year(date: &Option<String>) -> (y: Option<i32>)
    ensures
        y == release_year_of(*date),
{
    match date {
        Some(d) => {
            let v = str_chars(d.as_str());
            if v.len() < 4 {
                return None;
            }
            let head = chars_range(&v, 0, 4);
            let digits = if head[0] == '+' || head[0] == '-' {
                let r = chars_range(&head, 1, 4);
                assert(r@ =~= head@.drop_first());
                r
            } else {
                let r = chars_range(&head, 0, 4);
                assert(r@ =~= head@);
                r
            };
            assert(digits@ == strip_sign(head@));
            if digits.len() > 0 && count_digits(&digits) == digits.len() {
                proof {
                    crate::text::lemma_digit_run_bound(digits@);
                }
                let mut value: i32 = 0;
                let mut i: usize = 0;
                while i < digits.len()
                    invariant
                        i <= digits@.len(),
                        digits@.len() <= 4,
                        digit_run(digits@) == digits@.len(),
                        forall|k: int| 0 <= k < digits@.len() ==> crate::text::is_digit(#[trigger] digits@[k]),
                        value as int == digits_value(digits@.subrange(0, i as int)),
                        value < 10000,
                    decreases digits.len() - i,
                {
                    proof {
                        assert(digits@.subrange(0, i + 1).drop_last() =~= digits@.subrange(0, i as int));
                        assert(digits@.subrange(0, i + 1).last() == digits@[i as int]);
                        assert forall|k: int| 0 <= k < i + 1 implies crate::text::is_digit(#[trigger] digits@.subrange(0, i + 1)[k]) by {
                            assert(digits@.subrange(0, i + 1)[k] == digits@[k]);
                        }
                        lemma_small_value(digits@.subrange(0, i + 1));
                    }
                    let dv = (digits[i] as u32 - '0' as u32) as i32;
                    value = value * 10 + dv;
                    i += 1;
                }
                assert(digits@.subrange(0, digits@.len() as int) =~= digits@);
                if head[0] == '-' {
                    Some(-value)
                } else {
                    Some(value)
                }
            } else {
                None
            }
        },
        None => None,
    }
}

proof fn lemma_small_value(s: Seq<char>)
    requires
        s.len() <= 4,
        forall|k: int| 0 <= k < s.len() ==> crate::text::is_digit(#[trigger] s[k]),
    ensures
        digits_value(s) < 10000,
    decreases s.len(),
{
    if s.len() > 0 {
        lemma_small_value(s.drop_last());
        assert forall|k: int| 0 <= k < s.drop_last().len() implies crate::text::is_digit(#[trigger] s.drop_last()[k]) by {
            assert(s.drop_last()[k] == s[k]);
        }
        let p = s.drop_last();
        if p.len() == 0 {
        } else if p.len() == 1 {
            lemma_small_value(p);
        }
        lemma_value_bound(p);
    }
}

proof fn lemma_value_bound(s: Seq<char>)
    requires
        forall|k: int| 0 <= k < s.len() ==> crate::text::is_digit(#[trigger] s[k]),
    ensures
        s.len() == 0 ==> digits_value(s) == 0,
        s.len() <= 3 ==> digits_value(s) < 1000,
        s.len() <= 2 ==> digits_value(s) < 100,
        s.len() <= 1 ==> digits_value(s) < 10,
    decreases s.len(),
{
    if s.len() > 0 {
        let p = s.drop_last();
        assert forall|k: int| 0 <= k < p.len() implies crate::text::is_digit(#[trigger] p[k]) by {
            assert(p[k] == s[k]);
        }
        lemma_value_bound(p);
        assert(crate::text::is_digit(s[s.len() - 1]));
    }
}

fn created_at(date: &Option<String>) -> (r: Option<String>)
    ensures
        ov(r) == created_of(*date),
{
    match date {
        Some(d) => Some(crate::text::concat2(d.as_str(), "T00:00:00")),
        None => None,
    }
}

/// A count as a `usize`, when it fits.
pub open spec fn count_of(c: Option<u64>) -> Option<usize> {
    match c {
        Some(n) => if n <= usize::MAX {
            Some(n as usize)
        } else {
            None
        },
        None => None,
    }
}

/// A number as a `u32`, when it fits.
pub open spec fn small_of(c: Option<u64>) -> Option<u32> {
    match c {
        Some(n) => if n <= u32::MAX {
            Some(n as u32)
        } else {
            None
        },
        None => None,
    }
}

fn to_count(c: Option<u64>) -> (r: Option<usize>)
    ensures
        r == count_of(c),
{
    match c {
        Some(n) => if n <= usize::MAX as u64 {
            Some(n as usize)
        } else {
            None
        },
        None => None,
    }
}

fn to_small(c: Option<u64>) -> (r: Option<u32>)
    ensures
        r == small_of(c),
{
    match c {
        Some(n) => if n <= u32::MAX as u64 {
            Some(n as u32)
        } else {
            None
        },
        None => None,
    }
}

/// The artist of a search hit: its artwork gives the cover art (the artist
/// id) and the image URL.
pub fn search_artist_to_subsonic(item: &CatalogItem) -> (a: SubsonicArtist)
    ensures
        a.id@ == or_empty(item.id),
        a.name@ == or_empty(item.name),
        ov(a.cover_art) == (if artwork_of(*item) is Some { Some(or_empty(item.id)) } else { None }),
        ov(a.artist_image_url) == match artwork_of(*item) {
            Some(t) => Some(artwork_url(t, None)),
            None => None,
        },
        a.album_count is None,
{
    let id = text_or_empty(&item.id);
    let template = artwork_template(item);
    let cover_art = match &template {
        Some(_) => Some(id.clone()),
        None => None,
    };
    let artist_image_url = match &template {
        Some(t) => Some(render_artwork_url(t.as_str(), None)),
        None => None,
    };
    SubsonicArtist { id, name: text_or_empty(&item.name), cover_art, artist_image_url, album_count: None }
}

/// Whether `a` is the album that the search hit `item` describes.
pub open spec fn is_search_album(a: SubsonicAlbum, item: CatalogItem) -> bool {
    &&& a.id@ == or_empty(item.id)
    &&& a.name@ == or_empty(item.name)
    &&& a.artist@ == or_empty(item.artist_name)
    &&& a.artist_id is None
    &&& ov(a.cover_art) == (if artwork_of(item) is Some { Some(or_empty(item.id)) } else { None })
    &&& a.song_count == count_of(item.track_count)
    &&& a.duration is None
    &&& a.year == release_year_of(item.release_date)
    &&& ov(a.created) == created_of(item.release_date)
    &&& ov(a.genre) == ov(item.first_genre)
}

/// The album of a search hit.
pub fn search_album_to_subsonic(item: &CatalogItem) -> (a: SubsonicAlbum)
    ensures
        is_search_album(a, *item),
{
    let id = text_or_empty(&item.id);
    let cover_art = match artwork_template(item) {
        Some(_) => Some(id.clone()),
        None => None,
    };
    SubsonicAlbum {
        id,
        name: text_or_empty(&item.name),
        artist: text_or_empty(&item.artist_name),
        artist_id: None,
        cover_art,
        song_count: to_count(item.track_count),
        duration: None,
        year: release_year(&item.release_date),
        created: created_at(&item.release_date),
        genre: copy_opt(&item.first_genre),
    }
}

/// The fields that every song conversion shares, given its album id and
/// cover art.
pub open spec fn song_fields_from(s: SubsonicSong, item: CatalogItem, album_id: Option<Seq<char>>, cover_art: Option<Seq<char>>) -> bool {
    &&& s.id@ == or_empty(item.id)
    &&& ov(s.parent) == album_id
    &&& s.title@ == or_empty(item.name)
    &&& ov(s.album) == ov(item.album_name)
    &&& s.artist@ == or_empty(item.artist_name)
    &&& ov(s.artist_id) == ov(item.artist_relation_id)
    &&& ov(s.cover_art) == cover_art
    &&& s.duration == match item.duration_millis { Some(ms) => Some((ms / 1000) as u64), None => None }
    &&& s.track == small_of(item.track_number)
    &&& s.disc_number == small_of(item.disc_number)
    &&& s.year == release_year_of(item.release_date)
    &&& ov(s.created) == created_of(item.release_date)
    &&& ov(s.genre) == ov(item.first_genre)
    &&& s.suffix@ == "m4a"@
    &&& s.content_type@ == "audio/mp4"@
    &&& ov(s.album_id) == album_id
}

fn song_from(item: &CatalogItem, album_id: Option<String>, cover_art: Option<String>) -> (s: SubsonicSong)
    ensures
        song_fields_from(s, *item, ov(album_id), ov(cover_art)),
{
    SubsonicSong {
        id: text_or_empty(&item.id),
        parent: copy_opt(&album_id),
        title: text_or_empty(&item.name),
        album: copy_opt(&item.album_name),
        artist: text_or_empty(&item.artist_name),
        artist_id: copy_opt(&item.artist_relation_id),
        cover_art,
        duration: match item.duration_millis {
            Some(ms) => Some(ms / 1000),
            None => None,
        },
        track: to_small(item.track_number),
        disc_number: to_small(item.disc_number),
        year: release_year(&item.release_date),
        created: created_at(&item.release_date),
        genre: copy_opt(&item.first_genre),
        suffix: "m4a",
        content_type: "audio/mp4",
        album_id,
    }
}

/// The song of a search hit: its album gives the parent and cover art,
/// else its own artwork the cover art (the song id).
pub fn search_song_to_subsonic(item: &CatalogItem) -> (s: SubsonicSong)
    ensures
        song_fields_from(
            s,
            *item,
            ov(item.album_relation_id),
            match item.album_relation_id {
                Some(a) => Some(a@),
                None => if artwork_of(*item) is Some { Some(or_empty(item.id)) } else { None },
            },
        ),
{
    let album_id = copy_opt(&item.album_relation_id);
    let cover_art = match &album_id {
        Some(a) => Some(a.clone()),
        None => match artwork_template(item) {
            Some(_) => Some(text_or_empty(&item.id)),
            None => None,
        },
    };
    song_from(item, album_id, cover_art)
}

/// The album a track belongs to: the catalog id of its play parameters, else
/// its album relation.
pub open spec fn track_album(item: CatalogItem) -> Option<Seq<char>> {
    match item.catalog_id {
        Some(c) => Some(c@),
        None => ov(item.album_relation_id),
    }
}

/// Whether `s` is the song that the album track `item` describes.
pub open spec fn is_album_track(s: SubsonicSong, item: CatalogItem) -> bool {
    song_fields_from(s, item, track_album(item), track_album(item))
}

/// A track of an album: the catalog id of its play parameters, else its
/// album relation, is its album, parent and cover art.
pub fn album_track_to_subsonic(item: &CatalogItem) -> (s: SubsonicSong)
    ensures
        is_album_track(s, *item),
{
    let album_id = match &item.catalog_id {
        Some(c) => Some(c.clone()),
        None => copy_opt(&item.album_relation_id),
    };
    let cover_art = copy_opt(&album_id);
    song_from(item, album_id, cover_art)
}

/// Whether `a` carries what an album lookup says of `album`: everything but
/// the song count and duration.
pub open spec fn album_detail_fields(a: SubsonicAlbum, album: CatalogItem) -> bool {
    &&& a.id@ == or_empty(album.id)
    &&& a.name@ == or_empty(album.name)
    &&& a.artist@ == or_empty(album.artist_name)
    &&& ov(a.artist_id) == ov(album.artist_relation_id)
    &&& ov(a.cover_art) == (if artwork_of(album) is Some { Some(or_empty(album.id)) } else { None })
    &&& a.year == release_year_of(album.release_date)
    &&& ov(a.created) == created_of(album.release_date)
    &&& ov(a.genre) == ov(album.first_genre)
}

/// The album of an album lookup, which needs an id and a name; it counts
/// `track_total` tracks.
pub fn album_detail_to_subsonic(album: &CatalogItem, track_total: usize) -> (r: Option<SubsonicAlbum>)
    ensures
        (album.id is None || album.name is None) ==> r is None,
        (album.id is Some && album.name is Some) ==> (r matches Some(a) && album_detail_fields(a, *album)
            && a.song_count == Some(track_total) && a.duration is None),
{
    let id = match &album.id {
        Some(i) => i.clone(),
        None => return None,
    };
    let name = match &album.name {
        Some(n) => n.clone(),
        None => return None,
    };
    let cover_art = match artwork_template(album) {
        Some(_) => Some(id.clone()),
        None => None,
    };
    Some(SubsonicAlbum {
        id,
        name,
        artist: text_or_empty(&album.artist_name),
        artist_id: copy_opt(&album.artist_relation_id),
        cover_art,
        song_count: Some(track_total),
        duration: None,
        year: release_year(&album.release_date),
        created: created_at(&album.release_date),
        genre: copy_opt(&album.first_genre),
    })
}

/// The ids of `items`, in order.
pub open spec fn item_ids(items: Seq<CatalogItem>) -> Seq<Seq<char>> {
    items.map_values(|i: CatalogItem| or_empty(i.id))
}

/// The positions of `ids` whose id did not occur before.
pub open spec fn first_occurrences(ids: Seq<Seq<char>>) -> Seq<int>
    decreases ids.len(),
{
    if ids.len() == 0 {
        Seq::empty()
    } else {
        let prev = first_occurrences(ids.drop_last());
        let i = ids.len() - 1;
        if ids.drop_last().contains(ids[i]) {
            prev
        } else {
            prev.push(i)
        }
    }
}

/// The items of all views, in order.
pub open spec fn flatten_views(views: Seq<Seq<CatalogItem>>) -> Seq<CatalogItem>
    decreases views.len(),
{
    if views.len() == 0 {
        Seq::empty()
    } else {
        flatten_views(views.drop_last()) + views.last()
    }
}

/// The view of nested vectors.
pub open spec fn views_view(v: Seq<Vec<CatalogItem>>) -> Seq<Seq<CatalogItem>> {
    v.map_values(|x: Vec<CatalogItem>| x@)
}

/// The ids of a list of albums.
pub open spec fn album_ids(v: Seq<SubsonicAlbum>) -> Seq<Seq<char>> {
    v.map_values(|a: SubsonicAlbum| a.id@)
}

fn seen_before(ids: &Vec<Vec<char>>, id: &Vec<char>) -> (b: bool)
    ensures
        b == ids@.map_values(|v: Vec<char>| v@).contains(id@),
{
    let ghost vs = ids@.map_values(|v: Vec<char>| v@);
    let mut i: usize = 0;
    while i < ids.len()
        invariant
            i <= ids@.len(),
            vs == ids@.map_values(|v: Vec<char>| v@),
            forall|k: int| 0 <= k < i ==> vs[k] != id@,
        decreases ids.len() - i,
    {
        if chars_eq(&ids[i], id) {
            assert(vs[i as int] == id@);
            return true;
        }
        i += 1;
    }
    false
}

/// The artist's name (empty when absent), image URL, and its albums from
/// the views in order, each id once: the first album with an id is kept.
pub fn unique_artist_albums(artist: &CatalogItem, views: &Vec<Vec<CatalogItem>>) -> (r: (String, Option<String>, Vec<SubsonicAlbum>))
    ensures
        r.0@ == or_empty(artist.name),
        ov(r.1) == match artwork_of(*artist) {
            Some(t) => Some(artwork_url(t, None)),
            None => None,
        },
        ({
            let items = flatten_views(views_view(views@));
            let keep = first_occurrences(item_ids(items));
            &&& r.2@.len() == keep.len()
            &&& forall|k: int| 0 <= k < keep.len() ==> is_search_album(#[trigger] r.2@[k], items[keep[k]])
        }),
{
    let name = text_or_empty(&artist.name);
    let image = match artwork_template(artist) {
        Some(t) => Some(render_artwork_url(t.as_str(), None)),
        None => None,
    };
    let ghost all = flatten_views(views_view(views@));
    let mut seen: Vec<Vec<char>> = Vec::new();
    let mut albums: Vec<SubsonicAlbum> = Vec::new();
    let mut vi: usize = 0;
    while vi < views.len()
        invariant
            vi <= views@.len(),
            all == flatten_views(views_view(views@)),
            ({
                let done = flatten_views(views_view(views@.subrange(0, vi as int)));
                let keep = first_occurrences(item_ids(done));
                &&& albums@.len() == keep.len()
                &&& seen@.map_values(|v: Vec<char>| v@) == album_ids(albums@)
                &&& forall|k: int| 0 <= k < keep.len() ==> is_search_album(#[trigger] albums@[k], done[keep[k]])
                &&& forall|k: int| 0 <= k < keep.len() ==> 0 <= #[trigger] keep[k] < done.len()
                &&& forall|x: Seq<char>| item_ids(done).contains(x) <==> album_ids(albums@).contains(x)
            }),
        decreases views.len() - vi,
    {
        let view = &views[vi];
        let ghost before = flatten_views(views_view(views@.subrange(0, vi as int)));
        let mut j: usize = 0;
        while j < view.len()
            invariant
                j <= view@.len(),
                vi < views@.len(),
                *view == views@[vi as int],
                before == flatten_views(views_view(views@.subrange(0, vi as int))),
                ({
                    let done = before + view@.subrange(0, j as int);
                    let keep = first_occurrences(item_ids(done));
                    &&& albums@.len() == keep.len()
                    &&& seen@.map_values(|v: Vec<char>| v@) == album_ids(albums@)
                    &&& forall|k: int| 0 <= k < keep.len() ==> is_search_album(#[trigger] albums@[k], done[keep[k]])
                    &&& forall|k: int| 0 <= k < keep.len() ==> 0 <= #[trigger] keep[k] < done.len()
                    &&& forall|x: Seq<char>| item_ids(done).contains(x) <==> album_ids(albums@).contains(x)
                }),
            decreases view.len() - j,
        {
            let ghost done = before + view@.subrange(0, j as int);
            let ghost next = before + view@.subrange(0, j + 1);
            let ghost keep = first_occurrences(item_ids(done));
            proof {
                assert(next.drop_last() =~= done);
                assert(next.last() == view@[j as int]);
                assert(item_ids(next).drop_last() =~= item_ids(done));
                assert(item_ids(next)[next.len() - 1] == or_empty(view@[j as int].id));
            }
            let album = search_album_to_subsonic(&view[j]);
            let idv = str_chars(album.id.as_str());
            if !seen_before(&seen, &idv) {
                let ghost sb = seen@;
                let ghost ab = albums@;
                seen.push(idv);
                albums.push(album);
                proof {
                    assert(first_occurrences(item_ids(next)) == keep.push(next.len() - 1));
                    assert(seen@.map_values(|v: Vec<char>| v@) =~= sb.map_values(|v: Vec<char>| v@).push(album.id@));
                    assert(album_ids(albums@) =~= album_ids(ab).push(album.id@));
                    assert forall|k: int| 0 <= k < keep.len() + 1 implies is_search_album(
                        #[trigger] albums@[k],
                        next[keep.push(next.len() - 1)[k]],
                    ) by {
                        if k < keep.len() {
                            assert(albums@[k] == ab[k]);
                            assert(next[keep[k]] == done[keep[k]]);
                        }
                    }
                    assert forall|k: int| 0 <= k < keep.len() + 1 implies 0 <= #[trigger] keep.push(next.len() - 1)[k] < next.len() by {
                        if k < keep.len() {
                        }
                    }
                    assert forall|x: Seq<char>| item_ids(next).contains(x) <==> album_ids(albums@).contains(x) by {
                        if item_ids(next).contains(x) {
                            let w = choose|w: int| 0 <= w < item_ids(next).len() && item_ids(next)[w] == x;
                            if w < done.len() {
                                assert(item_ids(done)[w] == x);
                                assert(item_ids(done).contains(x));
                                assert(album_ids(ab).contains(x));
                                let z = choose|z: int| 0 <= z < album_ids(ab).len() && album_ids(ab)[z] == x;
                                assert(album_ids(albums@)[z] == x);
                            } else {
                                assert(album_ids(albums@)[albums@.len() - 1] == x);
                            }
                        }
                        if album_ids(albums@).contains(x) {
                            let z = choose|z: int| 0 <= z < album_ids(albums@).len() && album_ids(albums@)[z] == x;
                            if z < ab.len() {
                                assert(album_ids(ab)[z] == x);
                                assert(album_ids(ab).contains(x));
                                assert(item_ids(done).contains(x));
                                let w = choose|w: int| 0 <= w < item_ids(done).len() && item_ids(done)[w] == x;
                                assert(item_ids(next)[w] == x);
                            } else {
                                assert(item_ids(next)[next.len() - 1] == x);
                            }
                        }
                    }
                }
            } else {
                proof {
                    assert(album_ids(albums@).contains(album.id@));
                    assert(item_ids(done).contains(album.id@));
                    assert(first_occurrences(item_ids(next)) == keep);
                    assert forall|k: int| 0 <= k < keep.len() implies is_search_album(#[trigger] albums@[k], next[keep[k]]) by {
                        assert(next[keep[k]] == done[keep[k]]);
                    }
                    assert(album.id@ == or_empty(view@[j as int].id));
                    assert forall|x: Seq<char>| item_ids(next).contains(x) <==> album_ids(albums@).contains(x) by {
                        if item_ids(next).contains(x) {
                            let w = choose|w: int| 0 <= w < item_ids(next).len() && item_ids(next)[w] == x;
                            if w < done.len() {
                                assert(item_ids(done)[w] == x);
                                assert(item_ids(done).contains(x));
                            } else {
                                assert(x == album.id@);
                            }
                        }
                        if album_ids(albums@).contains(x) {
                            assert(item_ids(done).contains(x));
                            let w = choose|w: int| 0 <= w < item_ids(done).len() && item_ids(done)[w] == x;
                            assert(item_ids(next)[w] == x);
                        }
                    }
                }
            }
            j += 1;
        }
        proof {
            assert(view@.subrange(0, view@.len() as int) =~= view@);
            let vs = views_view(views@.subrange(0, vi + 1));
            assert(vs.drop_last() =~= views_view(views@.subrange(0, vi as int)));
            assert(vs.last() == view@);
        }
        vi += 1;
    }
    proof {
        assert(views@.subrange(0, views@.len() as int) =~= views@);
    }
    (name, image, albums)
}

/// The sum of the song durations that are known, wrapped to 64 bits.
pub open spec fn total_duration(songs: Seq<SubsonicSong>) -> u64
    decreases songs.len(),
{
    if songs.len() == 0 {
        0
    } else {
        let prev = total_duration(songs.drop_last());
        match songs.last().duration {
            Some(d) => ((prev + d) % 0x1_0000_0000_0000_0000) as u64,
            None => prev,
        }
    }
}

/// An album with its tracks: the album's total duration and song count come
/// from the tracks.
pub fn album_summary_with_songs(album: &CatalogItem, tracks: &Vec<CatalogItem>) -> (r: Option<(SubsonicAlbum, Vec<SubsonicSong>)>)
    ensures
        (album.id is None || album.name is None) ==> r is None,
        (album.id is Some && album.name is Some) ==> (r matches Some((a, songs)) && album_detail_fields(a, *album)
            && songs@.len() == tracks@.len() && (forall|k: int|
            0 <= k < tracks@.len() ==> is_album_track(#[trigger] songs@[k], tracks@[k]))
            && a.song_count == Some(tracks@.len() as usize) && a.duration == Some(total_duration(songs@))),
{
    let mut summary = match album_detail_to_subsonic(album, tracks.len()) {
        Some(a) => a,
        None => return None,
    };
    let mut songs: Vec<SubsonicSong> = Vec::new();
    let mut total: u64 = 0;
    let mut i: usize = 0;
    while i < tracks.len()
        invariant
            i <= tracks@.len(),
            songs@.len() == i,
            forall|k: int| 0 <= k < i ==> is_album_track(#[trigger] songs@[k], tracks@[k]),
            total == total_duration(songs@),
        decreases tracks.len() - i,
    {
        let song = album_track_to_subsonic(&tracks[i]);
        let ghost before = songs@;
        let d = song.duration;
        songs.push(song);
        proof {
            assert(songs@.drop_last() =~= before);
        }
        match d {
            Some(v) => {
                total = total.wrapping_add(v);
            },
            None => {},
        }
        i += 1;
    }
    summary.duration = Some(total);
    summary.song_count = Some(songs.len());
    Some((summary, songs))
}

/// Whether a search hit is named `title`, ignoring case and surrounding
/// whitespace.
pub open spec fn title_matches(item: CatalogItem, title: Seq<char>) -> bool {
    ascii_lower(trim(or_empty(item.name))) == title
}

/// Whether a search hit is by `artist` (any artist when none is asked for).
pub open spec fn artist_matches(item: CatalogItem, artist: Option<Seq<char>>) -> bool {
    match artist {
        Some(a) => ascii_lower(trim(or_empty(item.artist_name))) == a,
        None => true,
    }
}

/// The first index of `items` satisfying both matches, if any.
pub open spec fn first_match(items: Seq<CatalogItem>, title: Seq<char>, artist: Option<Seq<char>>) -> Option<int>
    decreases items.len(),
{
    if items.len() == 0 {
        None
    } else if title_matches(items[0], title) && artist_matches(items[0], artist) {
        Some(0)
    } else {
        match first_match(items.drop_first(), title, artist) {
            Some(i) => Some(i + 1),
            None => None,
        }
    }
}

proof fn lemma_first_match_at(items: Seq<CatalogItem>, title: Seq<char>, artist: Option<Seq<char>>, i: int)
    requires
        0 <= i <= items.len(),
        forall|j: int| 0 <= j < i ==> !(title_matches(#[trigger] items[j], title) && artist_matches(items[j], artist)),
        i < items.len() ==> title_matches(items[i], title) && artist_matches(items[i], artist),
    ensures
        first_match(items, title, artist) == if i < items.len() { Some(i) } else { None::<int> },
    decreases i,
{
    if i > 0 {
        assert forall|j: int| 0 <= j < i - 1 implies !(title_matches(#[trigger] items.drop_first()[j], title)
            && artist_matches(items.drop_first()[j], artist)) by {
            assert(items.drop_first()[j] == items[j + 1]);
        }
        if i < items.len() {
            assert(items.drop_first()[i - 1] == items[i]);
        }
        lemma_first_match_at(items.drop_first(), title, artist, i - 1);
        assert(!(title_matches(items[0], title) && artist_matches(items[0], artist)));
    }
}

/// The song a lyrics request names: the first hit with the title and
/// artist, else the first with the title; its id, if it has one.
pub open spec fn lyrics_target_of(items: Seq<CatalogItem>, title: Seq<char>, artist: Option<Seq<char>>) -> Option<Seq<char>> {
    let pick = match first_match(items, title, artist) {
        Some(i) => Some(i),
        None => first_match(items, title, None),
    };
    match pick {
        Some(i) => ov(items[i].id),
        None => None,
    }
}

fn normalized_chars(s: &str) -> (v: Vec<char>)
    ensures
        v@ == ascii_lower(trim(s@)),
{
    let c = str_chars(s);
    let t = trim_chars(&c);
    lower_chars(&t)
}

fn find_match(items: &Vec<CatalogItem>, title: &Vec<char>, artist: &Option<Vec<char>>) -> (r: Option<usize>)
    ensures
        r matches Some(k) ==> k < items@.len(),
        ({
            let a = match artist { Some(v) => Some(v@), None => None };
            match first_match(items@, title@, a) {
                Some(i) => r == Some(i as usize) && 0 <= i < items@.len(),
                None => r is None,
            }
        }),
{
    let ghost a: Option<Seq<char>> = match artist {
        Some(v) => Some(v@),
        None => None,
    };
    let mut i: usize = 0;
    while i < items.len()
        invariant
            i <= items@.len(),
            a == (match artist { Some(v) => Some(v@), None => None::<Seq<char>> }),
            forall|j: int| 0 <= j < i ==> !(title_matches(items@[j], title@) && artist_matches(items@[j], a)),
        decreases items.len() - i,
    {
        let item = &items[i];
        let name = text_or_empty(&item.name);
        let title_ok = chars_eq(&normalized_chars(name.as_str()), title);
        let artist_ok = match artist {
            Some(want) => {
                let by = text_or_empty(&item.artist_name);
                chars_eq(&normalized_chars(by.as_str()), want)
            },
            None => true,
        };
        if title_ok && artist_ok {
            proof {
                lemma_first_match_at(items@, title@, a, i as int);
            }
            return Some(i);
        }
        i += 1;
    }
    proof {
        lemma_first_match_at(items@, title@, a, i as int);
    }
    None
}

/// Finds the song a lyrics request names among search hits, by a title
/// already trimmed and an optional artist.
pub fn lyrics_target(items: &Vec<CatalogItem>, title: &str, artist: Option<&str>) -> (r: Option<String>)
    ensures
        ov(r) == lyrics_target_of(
            items@,
            ascii_lower(trim(title@)),
            match artist { Some(a) => Some(ascii_lower(trim(a@))), None => None },
        ),
{
    let t = normalized_chars(title);
    let a: Option<Vec<char>> = match artist {
        Some(x) => Some(normalized_chars(x)),
        None => None,
    };
    let ghost wanted: Option<Seq<char>> = match artist {
        Some(x) => Some(ascii_lower(trim(x@))),
        None => None,
    };
    assert(wanted == (match &a { Some(v) => Some(v@), None => None::<Seq<char>> }));

    let first = find_match(items, &t, &a);
    let none: Option<Vec<char>> = None;
    let pick = match first {
        Some(i) => Some(i),
        None => find_match(items, &t, &none),
    };
    assert(match first_match(items@, t@, wanted) {
        Some(k) => pick == Some(k as usize) && 0 <= k < items@.len(),
        None => match first_match(items@, t@, None) {
            Some(j) => pick == Some(j as usize) && 0 <= j < items@.len(),
            None => pick is None,
        },
    });
    let n = items.len();
    assert(n == items@.len());
    let ghost spec_pick = match first_match(items@, t@, wanted) {
        Some(i) => Some(i),
        None => first_match(items@, t@, None),
    };
    assert(t@ == ascii_lower(trim(title@)));
    match pick {
        Some(i) => {
            assert(spec_pick == Some(i as int));
            let r = copy_opt(&items[i].id);
            assert(ov(r) == ov(items@[i as int].id));
            r
        },
        None => {
            assert(spec_pick is None);
            None
        },
    }
}

/// An artwork's URL, width and height.
#[derive(Clone, Debug)]
pub struct ArtworkDescriptor {
    pub url: String,
    pub width: Option<u32>,
    pub height: Option<u32>,
}

/// The artwork for a cover request from a template, if it is present and
/// not empty, at `size`.
pub fn artwork_descriptor(template: Option<&str>, size: Option<u32>) -> (r: Option<ArtworkDescriptor>)
    ensures
        match template {
            Some(t) => if t@.len() > 0 {
                r matches Some(d) && d.url@ == artwork_url(t@, size) && d.width == size && d.height == size
            } else {
                r is None
            },
            None => r is None,
        },
{
    match template {
        Some(t) => if str_chars(t).len() > 0 {
            Some(ArtworkDescriptor { url: render_artwork_url(t, size), width: size, height: size })
        } else {
            None
        },
        None => None,
    }
}

/// The first template of `ts` that is present and not empty.
pub open spec fn first_template(ts: Seq<Option<String>>) -> Option<Seq<char>>
    decreases ts.len(),
{
    if ts.len() == 0 {
        None
    } else {
        match ts[0] {
            Some(t) => if t@.len() > 0 {
                Some(t@)
            } else {
                first_template(ts.drop_first())
            },
            None => first_template(ts.drop_first()),
        }
    }
}

/// Where the artwork of a cover request is looked for, in order.
#[derive(Clone, Copy, Debug, PartialEq, Eq, Structural)]
pub enum ArtworkSource {
    Song,
    Album,
    Artist,
}

/// The source tried after `source`, if any.
pub open spec fn next_artwork_source(source: ArtworkSource) -> Option<ArtworkSource> {
    match source {
        ArtworkSource::Song => Some(ArtworkSource::Album),
        ArtworkSource::Album => Some(ArtworkSource::Artist),
        ArtworkSource::Artist => None,
    }
}

/// One step of a cover-art lookup: the artwork from the templates that
/// `source` gave (`None` when it could not be fetched), else the source to
/// try next (`Err(None)` when there is none left).
pub fn artwork_step(
    source: ArtworkSource,
    templates: Option<Vec<Option<String>>>,
    size: Option<u32>,
) -> (r: Result<ArtworkDescriptor, Option<ArtworkSource>>)
    ensures
        match templates {
            Some(ts) => match first_template(ts@) {
                Some(t) => r matches Ok(d) && d.url@ == artwork_url(t, size) && d.width == size
                    && d.height == size,
                None => r == Err::<ArtworkDescriptor, Option<ArtworkSource>>(next_artwork_source(source)),
            },
            None => r == Err::<ArtworkDescriptor, Option<ArtworkSource>>(next_artwork_source(source)),
        },
{
    let next = match source {
        ArtworkSource::Song => Some(ArtworkSource::Album),
        ArtworkSource::Album => Some(ArtworkSource::Artist),
        ArtworkSource::Artist => None,
    };
    match templates {
        Some(ts) => match first_artwork(&ts, size) {
            Some(d) => Ok(d),
            None => Err(next),
        },
        None => Err(next),
    }
}

/// The artwork for a cover request from the templates found, in the order
/// they are tried (the song's, its album's, the album's, the artist's, its
/// latest release's): the first present and not empty, at `size`.
pub fn first_artwork(templates: &Vec<Option<String>>, size: Option<u32>) -> (r: Option<ArtworkDescriptor>)
    ensures
        match first_template(templates@) {
            Some(t) => r matches Some(d) && d.url@ == artwork_url(t, size) && d.width == size && d.height
                == size,
            None => r is None,
        },
{
    let mut i: usize = 0;
    assert(templates@.subrange(0, templates@.len() as int) =~= templates@);
    while i < templates.len()
        invariant
            i <= templates@.len(),
            first_template(templates@) == first_template(templates@.subrange(i as int, templates@.len() as int)),
        decreases templates.len() - i,
    {
        let ghost rest = templates@.subrange(i as int, templates@.len() as int);
        proof {
            assert(rest.drop_first() =~= templates@.subrange(i + 1, templates@.len() as int));
            assert(rest[0] == templates@[i as int]);
        }
        match &templates[i] {
            Some(t) => {
                if str_chars(t.as_str()).len() > 0 {
                    return artwork_descriptor(Some(t.as_str()), size);
                }
            },
            None => {},
        }
        i += 1;
    }
    None
}

/// What the decryptor writes into a track's tags.
#[derive(Clone, Debug)]
pub struct PlaybackTrackMetadata {
    pub song_id: String,
    pub artist: String,
    pub artist_id: String,
    pub album_id: String,
    pub album: String,
    pub title: String,
    pub track_number: u32,
    pub disc_number: u32,
    pub artwork: Option<ArtworkDescriptor>,
    pub album_artwork: Option<ArtworkDescriptor>,
    pub lyrics: Option<String>,
}

/// The view of an optional artwork descriptor: URL, width, height.
pub open spec fn descriptor_view(d: Option<ArtworkDescriptor>) -> Option<(Seq<char>, Option<u32>, Option<u32>)> {
    match d {
        Some(x) => Some((x.url@, x.width, x.height)),
        None => None,
    }
}

/// An artwork, with its URL template filled at the default size.
pub fn playback_artwork(artwork: crate::api::Artwork) -> (d: ArtworkDescriptor)
    ensures
        d.url@ == artwork_url(artwork.url@, None),
        d.width == artwork.width,
        d.height == artwork.height,
{
    ArtworkDescriptor { url: render_artwork_url(artwork.url.as_str(), None), width: artwork.width, height: artwork.height }
}

/// The tags of a track from its catalog metadata and lyrics, artwork URLs
/// filled at the default size.
pub fn playback_track_metadata(metadata: crate::api::SongPlaybackMetadata, lyrics: Option<String>) -> (m: PlaybackTrackMetadata)
    ensures
        m.song_id@ == metadata.song_id@,
        m.artist@ == metadata.artist@,
        m.artist_id@ == metadata.artist_id@,
        m.album_id@ == metadata.album_id@,
        m.album@ == metadata.album@,
        m.title@ == metadata.title@,
        m.track_number == metadata.track_number,
        m.disc_number == metadata.disc_number,
        descriptor_view(m.artwork) == match metadata.artwork {
            Some(a) => Some((artwork_url(a.url@, None), a.width, a.height)),
            None => None,
        },
        descriptor_view(m.album_artwork) == match metadata.album_artwork {
            Some(a) => Some((artwork_url(a.url@, None), a.width, a.height)),
            None => None,
        },
        ov(m.lyrics) == ov(lyrics),
{
    let artwork = match metadata.artwork {
        Some(a) => Some(playback_artwork(a)),
        None => None,
    };
    let album_artwork = match metadata.album_artwork {
        Some(a) => Some(playback_artwork(a)),
        None => None,
    };
    PlaybackTrackMetadata {
        song_id: metadata.song_id,
        artist: metadata.artist,
        artist_id: metadata.artist_id,
        album_id: metadata.album_id,
        album: metadata.album,
        title: metadata.title,
        track_number: metadata.track_number,
        disc_number: metadata.disc_number,
        artwork,
        album_artwork,
        lyrics,
    }
}

/// Whether `x` is the id at one of the kept positions.
pub open spec fn is_kept(ids: Seq<Seq<char>>, keep: Seq<int>, x: Seq<char>) -> bool {
    exists|k: int| 0 <= k < keep.len() && ids[#[trigger] keep[k]] == x
}

/// Law: the albums kept for an artist have distinct ids, and every id of
/// the views is among them: the positions kept are increasing, their ids
/// differ pairwise, and each id of the list is the id of a kept position.
pub proof fn law_first_occurrences_distinct(ids: Seq<Seq<char>>)
    ensures
        ({
            let keep = first_occurrences(ids);
            &&& forall|k: int| 0 <= k < keep.len() ==> 0 <= #[trigger] keep[k] < ids.len()
            &&& forall|a: int, b: int| 0 <= a < b < keep.len() ==> keep[a] < keep[b] && ids[keep[a]] != ids[keep[b]]
            &&& forall|i: int| 0 <= i < ids.len() ==> is_kept(ids, keep, #[trigger] ids[i])
        }),
    decreases ids.len(),
{
    if ids.len() > 0 {
        let pre = ids.drop_last();
        law_first_occurrences_distinct(pre);
        let kp = first_occurrences(pre);
        let keep = first_occurrences(ids);
        let last = ids.len() - 1;
        assert forall|k: int| 0 <= k < kp.len() implies ids[#[trigger] kp[k]] == pre[kp[k]] by {}
        if pre.contains(ids[last]) {
            assert(keep == kp);
            assert forall|i: int| 0 <= i < ids.len() implies is_kept(ids, keep, #[trigger] ids[i]) by {
                if i < last {
                    assert(pre[i] == ids[i]);
                    assert(is_kept(pre, kp, pre[i]));
                    let k = choose|k: int| 0 <= k < kp.len() && pre[#[trigger] kp[k]] == pre[i];
                    assert(ids[keep[k]] == ids[i]);
                } else {
                    let w = choose|w: int| 0 <= w < pre.len() && pre[w] == ids[last];
                    assert(is_kept(pre, kp, pre[w]));
                    let k = choose|k: int| 0 <= k < kp.len() && pre[#[trigger] kp[k]] == pre[w];
                    assert(ids[keep[k]] == ids[i]);
                }
            }
        } else {
            assert(keep == kp.push(last));
            assert forall|a: int, b: int| 0 <= a < b < keep.len() implies keep[a] < keep[b] && ids[keep[a]] != ids[keep[b]] by {
                if b == keep.len() - 1 {
                    assert(keep[b] == last);
                    assert(keep[a] == kp[a]);
                    assert(ids[kp[a]] == pre[kp[a]]);
                    if ids[keep[a]] == ids[keep[b]] {
                        assert(pre.contains(ids[last]));
                    }
                } else {
                    assert(keep[a] == kp[a] && keep[b] == kp[b]);
                }
            }
            assert forall|i: int| 0 <= i < ids.len() implies is_kept(ids, keep, #[trigger] ids[i]) by {
                if i < last {
                    assert(pre[i] == ids[i]);
                    assert(is_kept(pre, kp, pre[i]));
                    let k = choose|k: int| 0 <= k < kp.len() && pre[#[trigger] kp[k]] == pre[i];
                    assert(keep[k] == kp[k]);
                    assert(ids[keep[k]] == ids[i]);
                } else {
                    assert(ids[keep[keep.len() - 1]] == ids[i]);
                }
            }
        }
    }
}

} // verus!
