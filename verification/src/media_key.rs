//! The cache keys of media: the text a key is made from, and the lower-case
//! hex form the digest of that text is written in.
use vstd::prelude::*;
use vstd::string::StringExecFns;

use crate::text::string_push;

verus! {

/// The text the key of an image is digested from: `image`, the item id, the
/// image id (if any) and the image type.
pub open spec fn image_key_text_of(item_id: Seq<char>, image_id: Option<Seq<char>>, image_type: Seq<
    char,
>) -> Seq<char> {
    let id = match image_id {
        Some(s) => s,
        None => Seq::empty(),
    };
    seq!['i', 'm', 'a', 'g', 'e'] + item_id + id + image_type
}

/// The text the key of a song's audio is digested from: `audio` and the
/// song's id at its provider.
pub open spec fn audio_key_text_of(native_id: Seq<char>) -> Seq<char> {
    seq!['a', 'u', 'd', 'i', 'o'] + native_id
}

fn push_word(s: &mut String, w: [char; 5])
    ensures
        final(s)@ == old(s)@ + seq![w[0], w[1], w[2], w[3], w[4]],
{
    string_push(s, w[0]);
    string_push(s, w[1]);
    string_push(s, w[2]);
    string_push(s, w[3]);
    string_push(s, w[4]);
    proof {
        assert(s@ =~= old(s)@ + seq![w[0], w[1], w[2], w[3], w[4]]);
    }
}

pub fn image_key_text(item_id: &str, image_id: Option<&str>, image_type: &str) -> (t: String)
    ensures
        t@ == image_key_text_of(
            item_id@,
            match image_id {
                Some(s) => Some(s@),
                None => None,
            },
            image_type@,
        ),
{
    let mut t = String::new();
    push_word(&mut t, ['i', 'm', 'a', 'g', 'e']);
    t.append(item_id);
    match image_id {
        Some(id) => t.append(id),
        None => {},
    }
    t.append(image_type);
    proof {
        let id = match image_id {
            Some(s) => s@,
            None => Seq::<char>::empty(),
        };
        assert(t@ =~= seq!['i', 'm', 'a', 'g', 'e'] + item_id@ + id + image_type@);
    }
    t
}

pub fn audio_key_text(native_id: &str) -> (t: String)
    ensures
        t@ == audio_key_text_of(native_id@),
{
    let mut t = String::new();
    push_word(&mut t, ['a', 'u', 'd', 'i', 'o']);
    t.append(native_id);
    t
}

/// The lower-case hex digit of `d` (below 16).
pub open spec fn hex_digit(d: int) -> char {
    if d < 10 {
        (48 + d) as char
    } else {
        (87 + d) as char
    }
}

/// Each byte as two lower-case hex digits, high half first.
pub open spec fn hex_lower_of(data: Seq<u8>) -> Seq<char>
    decreases data.len(),
{
    if data.len() == 0 {
        Seq::empty()
    } else {
        hex_lower_of(data.drop_last()) + seq![
            hex_digit(data.last() as int / 16),
            hex_digit(data.last() as int % 16),
        ]
    }
}

fn hex_digit_exec(d: u8) -> (c: char)
    requires
        d < 16,
    ensures
        c == hex_digit(d as int),
{
    if d < 10 {
        (48 + d) as char
    } else {
        (87 + d) as char
    }
}

/// `data` in lower-case hex.
pub fn hex_lower(data: &[u8]) -> (s: String)
    ensures
        s@ == hex_lower_of(data@),
{
    let mut s = String::new();
    let mut i: usize = 0;
    while i < data.len()
        invariant
            i <= data@.len(),
            s@ == hex_lower_of(data@.take(i as int)),
        decreases data@.len() - i,
    {
        let b = data[i];
        string_push(&mut s, hex_digit_exec(b / 16));
        string_push(&mut s, hex_digit_exec(b % 16));
        proof {
            assert(data@.take(i + 1).drop_last() =~= data@.take(i as int));
            assert(data@.take(i + 1).last() == b);
        }
        i = i + 1;
    }
    proof {
        assert(data@.take(data@.len() as int) =~= data@);
    }
    s
}

} // verus!
