//! Photos from what ExifTool reports of their files.
use crate::config::PhotoConfig;
use crate::html::{caption, caption_defined, caption_spec};
use crate::models::photo::{Camera, ExposureMode, Moment, Photo, PhotoFile};
use crate::models::size::{sized, SizeCollection};
use crate::outside::{local_zone_text, zone_offset_text, parse_date_time, parsed_date_time, pattern_matches, regex_compiles, regex_matches};
use crate::pattern::Pattern;
use crate::tools::{pos_from_name, pos_from_name_spec};
use encoding::Encoding;
use vstd::prelude::*;

verus! {

/// What ExifTool reports of one photo file, as far as photos are built from
/// it.
#[derive(Debug)]
pub struct ExifRecord {
    pub artist: Option<String>,
    pub camera_make: Option<String>,
    pub camera_model: Option<String>,
    pub caption: Option<String>,
    /// When the photo, not the file, was created
    pub created_on: Option<Moment>,
    pub exposure_compensation: Option<String>,
    pub exposure_mode: ExposureMode,
    /// When the file, not the photo, was created
    pub file_created_on: Option<Moment>,
    pub file_name: String,
    pub height: u16,
    pub iso: Option<u16>,
    pub lens: Option<String>,
    pub software: String,
    pub tags: Vec<String>,
    pub title: Option<String>,
    pub shutter_speed: Option<String>,
    /// When the photo was taken
    pub taken_on: Option<Moment>,
    pub width: u16,
}

/// Index of the photo in a record: the first group of the configured pattern
/// in its file name, or 0 where there is none.
pub open spec fn record_index(r: ExifRecord, config: PhotoConfig) -> u8 {
    match pos_from_name_spec(config.capture_index@, r.file_name@) {
        Some(n) => n,
        None => 0,
    }
}

/// Records whose file names give a photo index other than 0, in order.
pub open spec fn kept(rs: Seq<ExifRecord>, config: PhotoConfig) -> Seq<ExifRecord>
    decreases rs.len(),
{
    if rs.len() == 0 {
        Seq::empty()
    } else {
        let k = kept(rs.drop_last(), config);
        if record_index(rs.last(), config) > 0 {
            k.push(rs.last())
        } else {
            k
        }
    }
}

/// Photo `p` is the photo of record `r`: its file, title, artist, software
/// and tags; its caption as HTML; the date it was taken, or else created;
/// its sizes; and, where the camera make is known, its camera, named by the
/// model or else the make.
pub open spec fn converted(r: ExifRecord, config: PhotoConfig, p: Photo) -> bool {
    let index = record_index(r, config);
    &&& p.index == index
    &&& p.file.name == r.file_name
    &&& p.file.created == match r.file_created_on {
        Some(d) => d.timestamp,
        None => 0,
    }
    &&& p.title == r.title
    &&& p.artist == r.artist
    &&& p.software == r.software
    &&& p.tags == r.tags
    &&& match r.caption {
        Some(c) => p.caption matches Some(h) && h@ == caption_spec(c@),
        None => p.caption is None,
    }
    &&& p.date_taken == match r.taken_on {
        Some(d) => Some(d),
        None => r.created_on,
    }
    &&& !p.outlier_date
    &&& sized(p.size, r.width, r.height, index, config)
    &&& match r.camera_make {
        Some(make) => p.camera matches Some(c) && c.name == match r.camera_model {
            Some(m) => m,
            None => make,
        } && c.compensation == r.exposure_compensation && c.shutter_speed == r.shutter_speed
            && c.mode == r.exposure_mode && c.iso == r.iso && c.lens == r.lens,
        None => p.camera is None,
    }
}

/// A photo made from a record carries the record's own text fields, each in
/// its own place: the record's title as its title, the record's artist as its
/// artist, and the record's file name, software and tags as its own; it is not
/// an outlier.
pub proof fn lemma_photo_keeps_record_fields(r: ExifRecord, config: PhotoConfig, p: Photo)
    requires
        converted(r, config, p),
    ensures
        p.title == r.title,
        p.artist == r.artist,
        p.file.name == r.file_name,
        p.software == r.software,
        p.tags == r.tags,
        r.caption is None <==> p.caption is None,
        !p.outlier_date,
{
}

/// Whether every caption of the records can be made HTML.
pub open spec fn captions_defined(rs: Seq<ExifRecord>) -> bool {
    forall|i: int| 0 <= i < rs.len() ==> ((#[trigger] rs[i]).caption matches Some(c) ==> caption_defined(c@))
}

/// The photo of a record with index `index`.
fn photo_of(r: ExifRecord, index: u8, config: &PhotoConfig) -> (p: Photo)
    requires
        index == record_index(r, *config),
        r.caption matches Some(c) ==> caption_defined(c@),
    ensures
        converted(r, *config, p),
{
    let created = match r.file_created_on {
        Some(d) => d.timestamp,
        None => 0,
    };
    let caption_html = match &r.caption {
        Some(c) => Some(caption(c.as_str())),
        None => None,
    };
    let date_taken = match r.taken_on {
        Some(d) => Some(d),
        None => r.created_on,
    };
    let size = SizeCollection::from(r.width, r.height, index, config);
    let camera = match r.camera_make {
        Some(make) => Some(
            Camera {
                name: match r.camera_model {
                    Some(m) => m,
                    None => make,
                },
                compensation: r.exposure_compensation,
                shutter_speed: r.shutter_speed,
                mode: r.exposure_mode,
                iso: r.iso,
                lens: r.lens,
            },
        ),
        None => None,
    };
    Photo {
        artist: r.artist,
        software: r.software,
        title: r.title,
        caption: caption_html,
        camera,
        index,
        tags: r.tags,
        date_taken,
        outlier_date: false,
        size,
        file: PhotoFile { name: r.file_name, created },
    }
}

/// Photos of the records whose file names give an index, in order; records
/// without one are skipped.
pub fn photos_from_records(records: Vec<ExifRecord>, config: &PhotoConfig) -> (photos: Vec<Photo>)
    requires
        captions_defined(records@),
    ensures
        photos@.len() == kept(records@, *config).len(),
        forall|k: int| 0 <= k < photos@.len() ==> converted(kept(records@, *config)[k], *config, #[trigger] photos@[k]),
        forall|k: int|
            0 <= k < photos@.len() ==> (#[trigger] photos@[k]).title == kept(records@, *config)[k].title
                && photos@[k].artist == kept(records@, *config)[k].artist,
{
    let ghost whole = records@;
    let total = records.len();
    let mut input = records;
    let mut photos: Vec<Photo> = Vec::new();
    let mut taken: usize = 0;
    while input.len() > 0
        invariant
            total == whole.len(),
            taken + input@.len() == total,
            input@ == whole.skip(taken as int),
            captions_defined(whole),
            photos@.len() == kept(whole.take(taken as int), *config).len(),
            forall|k: int| 0 <= k < photos@.len() ==> converted(kept(whole.take(taken as int), *config)[k], *config, #[trigger] photos@[k]),
        decreases input.len(),
    {
        let r = input.remove(0);
        assert(whole.take(taken + 1).drop_last() =~= whole.take(taken as int));
        assert(whole.take(taken + 1).last() == r);
        assert(input@ =~= whole.skip(taken + 1));
        assert(whole[taken as int] == r);
        let index = match pos_from_name(&config.capture_index, r.file_name.as_str()) {
            Some(n) => n,
            None => 0,
        };
        if index > 0 {
            let ghost before = photos@;
            let p = photo_of(r, index, config);
            photos.push(p);
            assert(forall|k: int| 0 <= k < before.len() ==> photos@[k] == before[k]);
        }
        taken += 1;
    }
    assert(whole.take(taken as int) =~= whole);
    proof {
        assert forall|k: int| 0 <= k < photos@.len() implies (#[trigger] photos@[k]).title == kept(
            records@,
            *config,
        )[k].title && photos@[k].artist == kept(records@, *config)[k].artist by {
            lemma_photo_keeps_record_fields(kept(whole, *config)[k], *config, photos@[k]);
        }
    }
    photos
}

/// Photos of the records as `photos_from_records` makes them, where every
/// caption can be made HTML; none otherwise.
pub fn try_photos_from_records(records: Vec<ExifRecord>, config: &PhotoConfig) -> (photos: Option<Vec<Photo>>)
    ensures
        photos is None <==> !captions_defined(records@),
        photos matches Some(ps) ==> ps@.len() == kept(records@, *config).len() && forall|k: int|
            0 <= k < ps@.len() ==> converted(kept(records@, *config)[k], *config, #[trigger] ps@[k]),
{
    let mut i: usize = 0;
    while i < records.len()
        invariant
            i <= records@.len(),
            forall|j: int| 0 <= j < i ==> ((#[trigger] records@[j]).caption matches Some(c) ==> caption_defined(c@)),
        decreases records.len() - i,
    {
        match &records[i].caption {
            Some(c) => {
                if !crate::html::caption_is_defined(c.as_str()) {
                    return None;
                }
            },
            None => {},
        }
        i += 1;
    }
    Some(photos_from_records(records, config))
}

} // verus!

verus! {

/// EXIF details of a photo.
#[derive(Debug)]
pub struct EXIF {
    pub artist: String,
    pub compensation: String,
    pub time: String,
    pub f_number: u8,
    pub focal_length: u16,
    pub iso: u16,
    pub camera: String,
    pub lens: String,
    pub software: String,
    /// Whether raw values have been formatted
    pub sanitized: bool,
}

impl EXIF {
    /// Standardize software, camera and lens names by the configured pairs,
    /// once.
    pub fn sanitize(&mut self, config: crate::config::ExifConfig)
        ensures
            old(self).sanitized ==> *final(self) == *old(self),
            !old(self).sanitized ==> {
                &&& final(self).software@ == crate::tools::replace_pairs_spec(
                    old(self).software@,
                    crate::tools::pairs_view(config.software@),
                )
                &&& final(self).camera@ == crate::tools::replace_pairs_spec(
                    old(self).camera@,
                    crate::tools::pairs_view(config.camera@),
                )
                &&& final(self).lens@ == crate::tools::replace_pairs_spec(
                    old(self).lens@,
                    crate::tools::pairs_view(config.lens@),
                )
                &&& *final(self) == (EXIF {
                    software: final(self).software,
                    camera: final(self).camera,
                    lens: final(self).lens,
                    sanitized: true,
                    ..*old(self)
                })
            },
    {
        if self.sanitized {
            return;
        }
        self.software = crate::tools::replace_pairs(self.software.clone(), config.software.as_slice());
        self.camera = crate::tools::replace_pairs(self.camera.clone(), config.camera.as_slice());
        self.lens = crate::tools::replace_pairs(self.lens.clone(), config.lens.as_slice());
        self.sanitized = true;
    }
}

} // verus!

verus! {

/// Arguments of `exiftool` that report, as JSON, what photos are built from
/// for the files matching `file_pattern`; `#` after a tag name turns off
/// ExifTool's formatting of its value.
pub open spec fn exif_tool_spec(file_pattern: Seq<char>) -> Seq<Seq<char>> {
    seq![
        file_pattern,
        "-json"@,
        "-quiet"@,
        "-Aperture#"@,
        "-Artist"@,
        "-City"@,
        "-ColorTemperature#"@,
        "-Copyright"@,
        "-DateTimeCreated"@,
        "-CreateDate"@,
        "-FileCreateDate"@,
        "-Description"@,
        "-ExposureCompensation"@,
        "-ExposureProgram#"@,
        "-FileName"@,
        "-FocalLength#"@,
        "-FOV#"@,
        "-GPSLatitude#"@,
        "-GPSLongitude#"@,
        "-ImageHeight"@,
        "-ImageWidth"@,
        "-ISO"@,
        "-Keywords"@,
        "-Lens"@,
        "-Make"@,
        "-MaxApertureValue"@,
        "-Model"@,
        "-ProfileDescription"@,
        "-ShutterSpeed"@,
        "-Software"@,
        "-State"@,
        "-Title"@,
        "-UsageTerms"@,
    ]
}

/// Arguments of `exiftool` for the photos matching `file_pattern`.
pub fn exif_tool_args(file_pattern: &str) -> (args: Vec<String>)
    ensures
        args@.map_values(|s: String| s@) == exif_tool_spec(file_pattern@),
{
    let mut args: Vec<String> = Vec::new();
    args.push(String::from_str(file_pattern));
    let names: [&str; 32] = [
        "-json",
        "-quiet",
        "-Aperture#",
        "-Artist",
        "-City",
        "-ColorTemperature#",
        "-Copyright",
        "-DateTimeCreated",
        "-CreateDate",
        "-FileCreateDate",
        "-Description",
        "-ExposureCompensation",
        "-ExposureProgram#",
        "-FileName",
        "-FocalLength#",
        "-FOV#",
        "-GPSLatitude#",
        "-GPSLongitude#",
        "-ImageHeight",
        "-ImageWidth",
        "-ISO",
        "-Keywords",
        "-Lens",
        "-Make",
        "-MaxApertureValue",
        "-Model",
        "-ProfileDescription",
        "-ShutterSpeed",
        "-Software",
        "-State",
        "-Title",
        "-UsageTerms",
    ];
    let ghost want = exif_tool_spec(file_pattern@);
    assert(names@.len() == 32);
    let mut k: usize = 0;
    while k < 32
        invariant
            k <= 32,
            names@.len() == 32,
            want == exif_tool_spec(file_pattern@),
            forall|j: int| 0 <= j < 32 ==> (#[trigger] names@[j])@ == want[j + 1],
            args@.map_values(|s: String| s@) == want.take(k + 1),
        decreases 32 - k,
    {
        let ghost before = args@;
        args.push(String::from_str(names[k]));
        assert(args@.map_values(|s: String| s@) =~= before.map_values(|s: String| s@).push(want[k + 1]));
        assert(want.take(k + 2) =~= want.take(k + 1).push(want[k + 1]));
        k += 1;
    }
    assert(want.take(33) =~= want);
    args
}

/// Characters of ISO 8859-1 bytes: each byte is the code point of its
/// character.
pub open spec fn latin1(bytes: Seq<u8>) -> Seq<char> {
    bytes.map_values(|b: u8| b as char)
}

/// Calls `encoding::all::ISO_8859_1.decode` with `DecoderTrap::Ignore`. The
/// source's ISO 8859-1 index maps each byte to the character with that code
/// point and never reports an invalid byte, and the `Ignore` trap would go on
/// past one in any case, so the decode always succeeds.
#[verifier::external_body]
fn decode_latin1(bytes: &[u8]) -> (r: Option<String>)
    ensures
        r is Some,
        r matches Some(s) ==> s@ == latin1(bytes@),
{
    match encoding::all::ISO_8859_1.decode(bytes, encoding::DecoderTrap::Ignore) {
        Ok(text) => Some(text),
        Err(_) => None,
    }
}

/// Text of what ImageMagick wrote of the images, read as ISO 8859-1; none
/// when it wrote nothing.
pub fn exif_text(output: &[u8]) -> (text: Option<String>)
    ensures
        text is None <==> output@.len() == 0,
        text matches Some(t) ==> t@ == latin1(output@),
{
    match decode_latin1(output) {
        Some(t) => {
            if t.as_str().is_empty() {
                None
            } else {
                Some(t)
            }
        },
        None => None,
    }
}

} // verus!

verus! {

/// Pattern of a zone offset, `+hh:mm` or `-hh:mm`, ending a date-time text.
pub const ZONE_PATTERN: &'static str = "[+-]\\d{2}:\\d{2}$";

/// Format of ExifTool's date-times with their zone offset.
pub const DATE_TIME_FORMAT: &'static str = "%Y:%m:%d %H:%M:%S%:z";

/// Whether a date-time text ends with its zone offset.
pub open spec fn has_zone(value: Seq<char>) -> bool {
    regex_compiles(ZONE_PATTERN@) && regex_matches(ZONE_PATTERN@, value)
}

/// The date-time text with `local_zone` appended where it names no zone.
pub open spec fn zoned(value: Seq<char>, local_zone: Seq<char>) -> Seq<char> {
    if has_zone(value) {
        value
    } else {
        value + local_zone
    }
}

/// The moment an ExifTool date-time (`2018:02:08 11:01:12-06:00`) names, read
/// in the zone `local_zone` where it names none; nothing where the text does
/// not fit the format.
pub fn exif_moment(value: &str, local_zone: &str) -> (m: Option<Moment>)
    ensures
        m is None <==> parsed_date_time(zoned(value@, local_zone@), DATE_TIME_FORMAT@) is None,
        m matches Some(x) ==> parsed_date_time(zoned(value@, local_zone@), DATE_TIME_FORMAT@) == Some(
            (x.timestamp, x.offset),
        ),
{
    let zone_given = match Pattern::new(ZONE_PATTERN) {
        Some(p) => pattern_matches(p.as_str(), value),
        None => false,
    };
    let mut text = String::from_str(value);
    if !zone_given {
        text.append(local_zone);
    }
    match parse_date_time(text.as_str(), DATE_TIME_FORMAT) {
        Some((timestamp, offset)) => Some(Moment { timestamp, offset }),
        None => None,
    }
}

/// Whether `m` is what the date-time text `text` gives when parsed: nothing
/// where it does not fit the format, otherwise its instant and offset.
pub open spec fn read_as(m: Option<Moment>, text: Seq<char>) -> bool {
    &&& m is None <==> parsed_date_time(text, DATE_TIME_FORMAT@) is None
    &&& m matches Some(x) ==> parsed_date_time(text, DATE_TIME_FORMAT@) == Some((x.timestamp, x.offset))
}

/// The moment an ExifTool date-time names, read in the machine's present zone
/// where it names none. Where it names its zone, the machine plays no part;
/// where it names none, it is read with some zone offset `±hh:mm` appended,
/// the machine's at the time of the call.
pub fn exif_date(value: &str) -> (m: Option<Moment>)
    ensures
        has_zone(value@) ==> read_as(m, value@),
        !has_zone(value@) ==> exists|z: Seq<char>| zone_offset_text(z) && #[trigger] read_as(m, value@ + z),
{
    let zone = local_zone_text();
    let m = exif_moment(value, zone.as_str());
    proof {
        if !has_zone(value@) {
            assert(zoned(value@, zone@) == value@ + zone@);
            assert(read_as(m, value@ + zone@));
        }
    }
    m
}

} // verus!
