//! Addresses of MapBox static map images.
use crate::config::{BlogConfig, MapBoxConfig};
use crate::models::post::Post;
use crate::text::{decimal, join, joined, push_decimal, push_str, string_of};
use vstd::prelude::*;

verus! {

/// Whether form encoding keeps a byte as it is: ASCII letters and digits and
/// `*`, `-`, `.` and `_`.
pub open spec fn form_unchanged(b: u8) -> bool {
    b == 42 || b == 45 || b == 46 || (48 <= b <= 57) || (65 <= b <= 90) || b == 95 || (97 <= b <= 122)
}

/// Upper-case hexadecimal digit of `d`, below 16.
pub open spec fn hex_upper(d: int) -> char {
    if d < 10 {
        (48 + d) as char
    } else {
        (55 + d) as char
    }
}

/// Form encoding of one byte: kept, a space as `+`, any other as `%` and two
/// upper-case hexadecimal digits.
pub open spec fn form_byte(b: u8) -> Seq<char> {
    if form_unchanged(b) {
        seq![b as char]
    } else if b == 32 {
        seq!['+']
    } else {
        seq!['%', hex_upper(b as int / 16), hex_upper(b as int % 16)]
    }
}

/// The `application/x-www-form-urlencoded` byte serialization of `bytes`.
pub open spec fn form_encoded(bytes: Seq<u8>) -> Seq<char>
    decreases bytes.len(),
{
    if bytes.len() == 0 {
        Seq::empty()
    } else {
        form_encoded(bytes.drop_last()) + form_byte(bytes.last())
    }
}

/// Calls `url::form_urlencoded::byte_serialize` on the UTF-8 bytes of `text`
/// and collects the pieces: the source keeps letters, digits and `*-._`,
/// writes a space as `+` and every other byte as `%XX` in upper case.
#[verifier::external_body]
fn form_encode(text: &str) -> (r: String)
    ensures
        r@ == form_encoded(vstd::utf8::encode_utf8(text@)),
{
    url::form_urlencoded::byte_serialize(text.as_bytes()).collect()
}

/// Address of a static map image of `width` by `height` pixels, at double
/// density, showing the pins.
pub open spec fn static_map_spec(config: MapBoxConfig, pins: Seq<Seq<char>>, width: u16, height: u16) -> Seq<char> {
    "https://api.mapbox.com/styles/v1/"@ + config.style.static_@ + "/static/"@ + form_encoded(
        vstd::utf8::encode_utf8(joined(pins, ","@)),
    ) + "/auto/"@ + decimal(width as nat) + "x"@ + decimal(height as nat) + "@2x?access_token="@
        + config.access_token@ + "&attribution=false&logo=false"@
}

/// Address of a MapBox static map image showing the pins, joined by commas
/// and form encoded.
pub fn static_map_url(config: &MapBoxConfig, pins: &Vec<String>, width: u16, height: u16) -> (url: String)
    ensures
        url@ == static_map_spec(*config, pins@.map_values(|s: String| s@), width, height),
{
    let list = join(pins, ",");
    let encoded = form_encode(list.as_str());
    let mut v: Vec<char> = Vec::new();
    push_str(&mut v, "https://api.mapbox.com/styles/v1/");
    push_str(&mut v, config.style.static_.as_str());
    push_str(&mut v, "/static/");
    push_str(&mut v, encoded.as_str());
    push_str(&mut v, "/auto/");
    push_decimal(&mut v, width as u64);
    push_str(&mut v, "x");
    push_decimal(&mut v, height as u64);
    push_str(&mut v, "@2x?access_token=");
    push_str(&mut v, config.mapbox_token());
    push_str(&mut v, "&attribution=false&logo=false");
    string_of(&v)
}

impl MapBoxConfig {
    fn mapbox_token(&self) -> (t: &str)
        ensures
            t@ == self.access_token@,
    {
        self.access_token.as_str()
    }
}

/// The static maps of a post: file name and address of the map at the
/// content width and inline height, and of the small map beside the cover
/// photo.
pub fn post_maps(post: &Post, config: &BlogConfig, pins: &Vec<String>) -> (maps: Vec<(String, String)>)
    ensures
        maps@.len() == 2,
        maps@[0].0@ == "map.png"@,
        maps@[0].1@ == static_map_spec(
            config.mapbox,
            pins@.map_values(|s: String| s@),
            config.style.content_width,
            config.style.inline_map_height,
        ),
        maps@[1].0@ == "map_small.png"@,
        maps@[1].1@ == static_map_spec(
            config.mapbox,
            pins@.map_values(|s: String| s@),
            post.cover_map_size.0,
            post.cover_map_size.1,
        ),
{
    let mut maps: Vec<(String, String)> = Vec::new();
    let large = static_map_url(&config.mapbox, pins, config.style.content_width, config.style.inline_map_height);
    maps.push((String::from_str("map.png"), large));
    let small = static_map_url(&config.mapbox, pins, post.cover_map_size.0, post.cover_map_size.1);
    maps.push((String::from_str("map_small.png"), small));
    maps
}

} // verus!
