//! Routing of the backend's HTTP `GET` requests by their path, and the parsing
//! of the ids in it.
use vstd::prelude::*;

use crate::block_store::decimal;
use crate::error::ProcessError;
use crate::text::{is_ascii_digit, string_push};

verus! {

/// `s` cut at every `sep`: `n` separators give `n + 1` parts, the way
/// `str::split` cuts.
pub open spec fn split_on(s: Seq<char>, sep: char) -> Seq<Seq<char>>
    decreases s.len(),
{
    if s.len() == 0 {
        seq![Seq::<char>::empty()]
    } else {
        let prev = split_on(s.drop_last(), sep);
        if s.last() == sep {
            prev.push(Seq::<char>::empty())
        } else {
            prev.update(prev.len() - 1, prev.last().push(s.last()))
        }
    }
}

proof fn lemma_split_nonempty(s: Seq<char>, sep: char)
    ensures
        split_on(s, sep).len() >= 1,
    decreases s.len(),
{
    if s.len() > 0 {
        lemma_split_nonempty(s.drop_last(), sep);
    }
}

/// The parts of `s` cut at `sep`.
pub fn split(s: &str, sep: char) -> (parts: Vec<String>)
    ensures
        parts@.len() == split_on(s@, sep).len(),
        forall|i: int| 0 <= i < parts@.len() ==> #[trigger] parts@[i]@ == split_on(s@, sep)[i],
{
    let mut done: Vec<String> = Vec::new();
    let mut cur = String::new();
    for c in it: s.chars()
        invariant
            it.seq() == s@,
            done@.len() + 1 == split_on(s@.take(it.index() as int), sep).len(),
            forall|i: int|
                0 <= i < done@.len() ==> #[trigger] done@[i]@ == split_on(
                    s@.take(it.index() as int),
                    sep,
                )[i],
            cur@ == split_on(s@.take(it.index() as int), sep).last(),
    {
        let ghost k = it.index() as int;
        proof {
            assert(s@.take(k + 1).drop_last() =~= s@.take(k));
            assert(s@.take(k + 1).last() == c);
            lemma_split_nonempty(s@.take(k), sep);
        }
        if c == sep {
            let finished = cur;
            done.push(finished);
            cur = String::new();
        } else {
            string_push(&mut cur, c);
        }
    }
    proof {
        assert(s@.take(s@.len() as int) =~= s@);
    }
    done.push(cur);
    done
}

/// Where a `GET` request goes.
#[derive(Debug, PartialEq)]
pub enum GetRoute {
    /// `/image/<item type>/<id>/<image type>`
    Image { item_type: String, id: String, image_type: String },
    /// `/audio/<item type>/<id>`
    Audio { item_type: String, id: String },
    NotFound,
}

/// What a route holds, as mathematical values.
pub enum GetRouteView {
    Image { item_type: Seq<char>, id: Seq<char>, image_type: Seq<char> },
    Audio { item_type: Seq<char>, id: Seq<char> },
    NotFound,
}

impl View for GetRoute {
    type V = GetRouteView;

    open spec fn view(&self) -> GetRouteView {
        match self {
            GetRoute::Image { item_type, id, image_type } => GetRouteView::Image {
                item_type: item_type@,
                id: id@,
                image_type: image_type@,
            },
            GetRoute::Audio { item_type, id } => GetRouteView::Audio {
                item_type: item_type@,
                id: id@,
            },
            GetRoute::NotFound => GetRouteView::NotFound,
        }
    }
}

pub open spec fn image_word() -> Seq<char> {
    seq!['i', 'm', 'a', 'g', 'e']
}

pub open spec fn audio_word() -> Seq<char> {
    seq!['a', 'u', 'd', 'i', 'o']
}

/// The route of a path: its parts after the first `/`, matched against
/// `image/*/*/*` and `audio/*/*`.
pub open spec fn route_of(path: Seq<char>) -> GetRouteView {
    let segs = split_on(path, '/').skip(1);
    if segs.len() == 4 && segs[0] == image_word() {
        GetRouteView::Image { item_type: segs[1], id: segs[2], image_type: segs[3] }
    } else if segs.len() == 3 && segs[0] == audio_word() {
        GetRouteView::Audio { item_type: segs[1], id: segs[2] }
    } else {
        GetRouteView::NotFound
    }
}

fn word(chars: [char; 5]) -> (s: String)
    ensures
        s@ == seq![chars[0], chars[1], chars[2], chars[3], chars[4]],
{
    let mut s = String::new();
    string_push(&mut s, chars[0]);
    string_push(&mut s, chars[1]);
    string_push(&mut s, chars[2]);
    string_push(&mut s, chars[3]);
    string_push(&mut s, chars[4]);
    proof {
        assert(s@ =~= seq![chars[0], chars[1], chars[2], chars[3], chars[4]]);
    }
    s
}

/// Routes the path of a `GET` request.
pub fn route_get(path: &str) -> (r: GetRoute)
    ensures
        r@ == route_of(path@),
{
    let mut parts = split(path, '/');
    let ghost segs = split_on(path@, '/').skip(1);
    let n = parts.len();
    let image = word(['i', 'm', 'a', 'g', 'e']);
    let audio = word(['a', 'u', 'd', 'i', 'o']);
    proof {
        assert(image@ =~= image_word());
        assert(audio@ =~= audio_word());
    }
    let ghost p0 = parts@;
    proof {
        lemma_split_nonempty(path@, '/');
        assert(segs.len() == n - 1);
        assert forall|j: int| 0 <= j < segs.len() implies segs[j] == p0[j + 1]@ by {}
    }
    if n == 5 && parts[1] == image {
        let image_type = parts.pop().unwrap();
        let id = parts.pop().unwrap();
        let item_type = parts.pop().unwrap();
        proof {
            assert(segs[0] == p0[1]@);
            assert(image_type == p0[4]);
            assert(id == p0[3]);
            assert(item_type == p0[2]);
        }
        GetRoute::Image { item_type, id, image_type }
    } else if n == 4 && parts[1] == audio {
        let id = parts.pop().unwrap();
        let item_type = parts.pop().unwrap();
        proof {
            assert(segs[0] == p0[1]@);
            assert(id == p0[3]);
            assert(item_type == p0[2]);
        }
        GetRoute::Audio { item_type, id }
    } else {
        proof {
            if n == 5 || n == 4 {
                assert(p0[1]@ == segs[0]);
            }
        }
        GetRoute::NotFound
    }
}

/// The value of a non-empty run of decimal digits.
pub open spec fn digits_value(s: Seq<char>) -> int
    decreases s.len(),
{
    if s.len() == 0 {
        0
    } else {
        10 * digits_value(s.drop_last()) + ((s.last() as u32) - 48)
    }
}

pub open spec fn all_digits(s: Seq<char>) -> bool {
    forall|i: int| 0 <= i < s.len() ==> is_ascii_digit(#[trigger] s[i])
}

/// What `str::parse::<i64>` gives: an optional `+` or `-`, then one or more
/// decimal digits, whose value must fit in `i64`.
pub open spec fn parse_i64_of(s: Seq<char>) -> Option<i64> {
    let signed = s.len() > 0 && (s[0] == '+' || s[0] == '-');
    let neg = s.len() > 0 && s[0] == '-';
    let digits = if signed {
        s.skip(1)
    } else {
        s
    };
    let v = if neg {
        -digits_value(digits)
    } else {
        digits_value(digits)
    };
    if digits.len() > 0 && all_digits(digits) && i64::MIN <= v <= i64::MAX {
        Some(v as i64)
    } else {
        None
    }
}

proof fn lemma_digits_grow(s: Seq<char>, k: int)
    requires
        0 <= k <= s.len(),
        all_digits(s),
    ensures
        digits_value(s.take(k)) <= digits_value(s),
        0 <= digits_value(s.take(k)),
    decreases s.len() - k,
{
    assert(all_digits(s.take(k))) by {
        assert forall|i: int| 0 <= i < s.take(k).len() implies is_ascii_digit(#[trigger] s.take(k)[i]) by {
            assert(s.take(k)[i] == s[i]);
        }
    }
    lemma_digits_nonneg(s.take(k));
    if k < s.len() {
        lemma_digits_grow(s, k + 1);
        assert(s.take(k + 1).drop_last() =~= s.take(k));
        assert(s.take(k + 1).last() == s[k]);
        assert(is_ascii_digit(s[k]));
        assert(digits_value(s.take(k + 1)) == 10 * digits_value(s.take(k)) + ((s[k] as u32) - 48));
    } else {
        assert(s.take(k) =~= s);
        lemma_digits_nonneg(s);
    }
}

proof fn lemma_digits_nonneg(s: Seq<char>)
    requires
        all_digits(s),
    ensures
        digits_value(s) >= 0,
    decreases s.len(),
{
    if s.len() > 0 {
        assert(is_ascii_digit(s[s.len() - 1]));
        assert(s.last() == s[s.len() - 1]);
        assert(all_digits(s.drop_last())) by {
            assert forall|i: int| 0 <= i < s.drop_last().len() implies is_ascii_digit(
                #[trigger] s.drop_last()[i],
            ) by {
                assert(s.drop_last()[i] == s[i]);
            }
        }
        lemma_digits_nonneg(s.drop_last());
    }
}

/// Parses an id of a path (`str::parse::<i64>`); `None` when it is not one.
pub fn parse_id(id: &str) -> (r: Option<i64>)
    ensures
        r == parse_i64_of(id@),
{
    let ghost s = id@;
    let n = id.unicode_len();
    if n == 0 {
        return None;
    }
    let c0 = id.get_char(0);
    let signed = c0 == '+' || c0 == '-';
    let neg = c0 == '-';
    let start: usize = if signed {
        1
    } else {
        0
    };
    let ghost digits = if signed {
        s.skip(1)
    } else {
        s
    };
    if start == n {
        return None;
    }
    // the largest magnitude an i64 can have
    let bound: i128 = 9223372036854775808;
    let mut acc: i128 = 0;
    let mut i: usize = start;
    while i < n
        invariant
            n == s.len(),
            start <= i <= n,
            start < n,
            s.len() > 0,
            signed == (s[0] == '+' || s[0] == '-'),
            neg == (s[0] == '-'),
            start == (if signed { 1usize } else { 0usize }),
            digits == (if signed { s.skip(1) } else { s }),
            digits.len() == n - start,
            s == id@,
            bound == 9223372036854775808,
            0 <= acc <= bound,
            all_digits(digits.take(i - start)),
            acc == digits_value(digits.take(i - start)),
        decreases n - i,
    {
        let c = id.get_char(i);
        let u = c as u32;
        proof {
            assert(digits[i - start] == s[i as int]);
            assert(digits[i - start] == c);
        }
        if u < 48 || u > 57 {
            proof {
                assert(!all_digits(digits));
            }
            return None;
        }
        let next = acc * 10 + (u as i128 - 48);
        proof {
            assert(digits.take(i + 1 - start).drop_last() =~= digits.take(i - start));
            assert(all_digits(digits.take(i + 1 - start)));
        }
        if next > bound {
            proof {
                if all_digits(digits) {
                    lemma_digits_grow(digits, i + 1 - start);
                }
            }
            return None;
        }
        acc = next;
        i = i + 1;
    }
    proof {
        assert(digits.take(n - start) =~= digits);
    }
    if neg {
        Some((0 - acc) as i64)
    } else if acc <= 9223372036854775807 {
        Some(acc as i64)
    } else {
        None
    }
}

/// Checks an image request `/image/<item type>/<id>/<image type>`. The
/// item and image types are parsed by their names by the caller
/// (`item_kind`, `image_kind`; `None` when the name is unknown). The image
/// type is checked first, then the item type, then the id.
pub fn check_image_request<K, M>(
    item_type: &str,
    id: &str,
    image_type: &str,
    item_kind: Option<K>,
    image_kind: Option<M>,
) -> (r: Result<(K, M, i64), ProcessError>)
    ensures
        image_kind is None ==> (r matches Err(ProcessError::NoSuchImageType(s)) && s@ == image_type@),
        image_kind is Some && item_kind is None ==> (r matches Err(ProcessError::NoSuchItemType(s))
            && s@ == item_type@),
        image_kind is Some && item_kind is Some && parse_i64_of(id@) is None ==> (r matches Err(
            ProcessError::WrongId(s),
        ) && s@ == id@),
        image_kind matches Some(m) ==> (item_kind matches Some(k) ==> (parse_i64_of(id@) matches Some(
            n,
        ) ==> r == Ok::<(K, M, i64), ProcessError>((k, m, n)))),
{
    let m = match image_kind {
        Some(m) => m,
        None => {
            return Err(ProcessError::NoSuchImageType(image_type.to_owned()));
        },
    };
    let k = match item_kind {
        Some(k) => k,
        None => {
            return Err(ProcessError::NoSuchItemType(item_type.to_owned()));
        },
    };
    match parse_id(id) {
        Some(n) => Ok((k, m, n)),
        None => Err(ProcessError::WrongId(id.to_owned())),
    }
}

/// Checks an audio request `/audio/<item type>/<id>`: only songs have
/// audio. `is_song` is the caller's parse of the item type's name (`None`
/// when the name is unknown). The id is checked after the item type.
pub fn check_audio_request(item_type: &str, id: &str, is_song: Option<bool>) -> (r: Result<
    i64,
    ProcessError,
>)
    ensures
        is_song is None ==> (r matches Err(ProcessError::NoSuchItemType(s)) && s@ == item_type@),
        is_song == Some(false) ==> (r matches Err(ProcessError::UnsupportedItemType(s)) && s@
            == item_type@),
        is_song == Some(true) && parse_i64_of(id@) is None ==> (r matches Err(
            ProcessError::WrongId(s),
        ) && s@ == id@),
        is_song == Some(true) ==> (parse_i64_of(id@) matches Some(n) ==> r == Ok::<
            i64,
            ProcessError,
        >(n)),
{
    match is_song {
        None => Err(ProcessError::NoSuchItemType(item_type.to_owned())),
        Some(false) => Err(ProcessError::UnsupportedItemType(item_type.to_owned())),
        Some(true) => match parse_id(id) {
            Some(n) => Ok(n),
            None => Err(ProcessError::WrongId(id.to_owned())),
        },
    }
}

/// An integer in decimal, with a `-` in front when it is negative.
pub open spec fn int_text(v: int) -> Seq<char> {
    if v < 0 {
        seq!['-'] + decimal((-v) as nat)
    } else {
        decimal(v as nat)
    }
}

fn push_decimal_u64(s: &mut String, n: u64)
    ensures
        final(s)@ == old(s)@ + decimal(n as nat),
    decreases n,
{
    if n >= 10 {
        push_decimal_u64(s, n / 10);
    }
    let d: u8 = (n % 10) as u8;
    let c: char = (48u8 + d) as char;
    string_push(s, c);
    proof {
        if n >= 10 {
            assert(old(s)@ + decimal(n as nat) =~= old(s)@ + decimal((n / 10) as nat) + seq![c]);
        } else {
            assert(decimal(n as nat) =~= seq![c]);
        }
    }
}

/// `v` in decimal, as `to_string` writes an `i64`.
pub fn id_text(v: i64) -> (t: String)
    ensures
        t@ == int_text(v as int),
{
    let mut t = String::new();
    if v < 0 {
        string_push(&mut t, '-');
        let m: u64 = (0i128 - v as i128) as u64;
        push_decimal_u64(&mut t, m);
    } else {
        push_decimal_u64(&mut t, v as u64);
    }
    t
}

/// The kinds of item an image is asked for.
#[derive(Debug, Clone, Copy, PartialEq, Eq, Structural)]
pub enum ImageItem {
    Album,
    Song,
    Artist,
    Mix,
    /// Any other item type: it has no images.
    Other,
}

/// What the database holds of the item an image is asked for: the item's id
/// at its provider, the provider, the id of the item's own image and, for a
/// song, that of its album's image.
#[derive(Debug, Clone, PartialEq)]
pub struct ImageRow {
    pub native_id: String,
    pub provider_id: i64,
    pub own_image: Option<String>,
    pub album_image: Option<String>,
}

/// Where an image is fetched from: the provider, the item's id there, and
/// the image's id there, if the item has one.
#[derive(Debug, Clone, PartialEq)]
pub struct ImageSource {
    pub provider_id: i64,
    pub native_id: String,
    pub image_id: Option<String>,
}

/// The image of an item: its own for an album or an artist; for a song its
/// own, else its album's; none named for a mix.
pub open spec fn image_of(item: ImageItem, row: ImageRow) -> Option<String> {
    match item {
        ImageItem::Song => match row.own_image {
            Some(i) => Some(i),
            None => row.album_image,
        },
        ImageItem::Mix => None,
        _ => row.own_image,
    }
}

/// Chooses where the image of item `id` (of type `item`, named `item_type`)
/// comes from, given its row in the database (`None` when there is no such
/// item). An item type with no images is not supported; a missing item is
/// reported by its kind, with its id in decimal.
pub fn pick_image(item: ImageItem, item_type: &str, id: i64, row: Option<ImageRow>) -> (r: Result<
    ImageSource,
    ProcessError,
>)
    ensures
        item == ImageItem::Other ==> (r matches Err(ProcessError::UnsupportedItemType(s)) && s@
            == item_type@),
        item != ImageItem::Other && row is None ==> match item {
            ImageItem::Album => r matches Err(ProcessError::NoSuchAlbum(s)) && s@ == int_text(
                id as int,
            ),
            ImageItem::Song => r matches Err(ProcessError::NoSuchSong(s)) && s@ == int_text(
                id as int,
            ),
            ImageItem::Artist => r matches Err(ProcessError::NoSuchArtist(s)) && s@ == int_text(
                id as int,
            ),
            _ => r matches Err(ProcessError::NoSuchMix(s)) && s@ == int_text(id as int),
        },
        item != ImageItem::Other ==> (row matches Some(w) ==> r == Ok::<
            ImageSource,
            ProcessError,
        >(ImageSource { provider_id: w.provider_id, native_id: w.native_id, image_id: image_of(item, w) })),
{
    if item == ImageItem::Other {
        return Err(ProcessError::UnsupportedItemType(item_type.to_owned()));
    }
    match row {
        None => {
            let t = id_text(id);
            match item {
                ImageItem::Album => Err(ProcessError::NoSuchAlbum(t)),
                ImageItem::Song => Err(ProcessError::NoSuchSong(t)),
                ImageItem::Artist => Err(ProcessError::NoSuchArtist(t)),
                _ => Err(ProcessError::NoSuchMix(t)),
            }
        },
        Some(w) => {
            let ImageRow { native_id, provider_id, own_image, album_image } = w;
            let image_id = match item {
                ImageItem::Song => match own_image {
                    Some(i) => Some(i),
                    None => album_image,
                },
                ImageItem::Mix => None,
                _ => own_image,
            };
            Ok(ImageSource { provider_id, native_id, image_id })
        },
    }
}

} // verus!
