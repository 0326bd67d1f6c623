//! Photos and their EXIF details.
use crate::config::ExifConfig;
use crate::models::size::{Size, SizeCollection};
use crate::text::{decimal3, push_decimal3, push_str, string_of};
use crate::tools::{pairs_view, replace_pairs, replace_pairs_spec};
use vstd::prelude::*;

verus! {

/// A moment in time: seconds since the Unix epoch and the UTC offset, in
/// seconds, that it was recorded with. Moments are ordered by timestamp.
#[derive(Clone, Copy, Debug, PartialEq, Eq, Structural)]
pub struct Moment {
    pub timestamp: i64,
    pub offset: i32,
}

/// Unique path to any blog photo.
#[derive(Debug)]
pub struct PhotoPath {
    pub post_path: String,
    pub photo_index: u8,
}

impl PhotoPath {
    /// URL of the photo within its post page: `path#NNN`.
    pub fn post_url(&self) -> (url: String)
        ensures
            url@ == self.post_path@ + "#"@ + decimal3(self.photo_index as nat),
    {
        let mut v = Vec::new();
        push_str(&mut v, self.post_path.as_str());
        push_str(&mut v, "#");
        push_decimal3(&mut v, self.photo_index as u64);
        string_of(&v)
    }

    /// URL of the photo's thumbnail: `path/NNN_t` and the extension.
    pub fn thumb_url(&self, ext: &str) -> (url: String)
        ensures
            url@ == self.post_path@ + "/"@ + decimal3(self.photo_index as nat) + "_"@ + "t"@
                + ext@,
    {
        let mut v = Vec::new();
        push_str(&mut v, self.post_path.as_str());
        push_str(&mut v, "/");
        push_decimal3(&mut v, self.photo_index as u64);
        push_str(&mut v, "_");
        push_str(&mut v, crate::models::size::SUFFIX_THUMB);
        push_str(&mut v, ext);
        string_of(&v)
    }
}

#[derive(Debug)]
pub struct PhotoFile {
    /// File name of source image including extension
    pub name: String,
    /// Timestamp when the file was created
    pub created: i64,
}

/// Exposure program recorded by the camera.
#[derive(Clone, Copy, Debug, PartialEq, Eq, Structural)]
pub enum ExposureMode {
    Undefined,
    Manual,
    ProgramAE,
    AperturePriority,
    ShutterPriority,
    Creative,
    Action,
    Portrait,
    Landscape,
    Bulb,
}

/// The exposure mode that EXIF numbers `n`.
pub open spec fn exposure_mode_of(n: u64) -> Option<ExposureMode> {
    if n == 0 {
        Some(ExposureMode::Undefined)
    } else if n == 1 {
        Some(ExposureMode::Manual)
    } else if n == 2 {
        Some(ExposureMode::ProgramAE)
    } else if n == 3 {
        Some(ExposureMode::AperturePriority)
    } else if n == 4 {
        Some(ExposureMode::ShutterPriority)
    } else if n == 5 {
        Some(ExposureMode::Creative)
    } else if n == 6 {
        Some(ExposureMode::Action)
    } else if n == 7 {
        Some(ExposureMode::Portrait)
    } else if n == 8 {
        Some(ExposureMode::Landscape)
    } else if n == 9 {
        Some(ExposureMode::Bulb)
    } else {
        None
    }
}

impl ExposureMode {
    /// The exposure mode with EXIF number `n`, from 0 to 9.
    pub fn from_u64(n: u64) -> (m: Option<ExposureMode>)
        ensures
            m == exposure_mode_of(n),
    {
        if n == 0 {
            Some(ExposureMode::Undefined)
        } else if n == 1 {
            Some(ExposureMode::Manual)
        } else if n == 2 {
            Some(ExposureMode::ProgramAE)
        } else if n == 3 {
            Some(ExposureMode::AperturePriority)
        } else if n == 4 {
            Some(ExposureMode::ShutterPriority)
        } else if n == 5 {
            Some(ExposureMode::Creative)
        } else if n == 6 {
            Some(ExposureMode::Action)
        } else if n == 7 {
            Some(ExposureMode::Portrait)
        } else if n == 8 {
            Some(ExposureMode::Landscape)
        } else if n == 9 {
            Some(ExposureMode::Bulb)
        } else {
            None
        }
    }

    /// Display name of the exposure mode.
    pub fn label(&self) -> (s: &'static str)
        ensures
            s@ == exposure_label(*self),
    {
        match self {
            ExposureMode::Undefined => "Unknown",
            ExposureMode::Manual => "Manual",
            ExposureMode::ProgramAE => "Program AE",
            ExposureMode::AperturePriority => "Aperture Priority",
            ExposureMode::ShutterPriority => "Shutter Priority",
            ExposureMode::Creative => "Creative Mode",
            ExposureMode::Action => "Action Mode",
            ExposureMode::Portrait => "Portrait Mode",
            ExposureMode::Landscape => "Landscape Mode",
            ExposureMode::Bulb => "Bulb Flash",
        }
    }
}

/// Display name of an exposure mode.
pub open spec fn exposure_label(m: ExposureMode) -> Seq<char> {
    match m {
        ExposureMode::Undefined => "Unknown"@,
        ExposureMode::Manual => "Manual"@,
        ExposureMode::ProgramAE => "Program AE"@,
        ExposureMode::AperturePriority => "Aperture Priority"@,
        ExposureMode::ShutterPriority => "Shutter Priority"@,
        ExposureMode::Creative => "Creative Mode"@,
        ExposureMode::Action => "Action Mode"@,
        ExposureMode::Portrait => "Portrait Mode"@,
        ExposureMode::Landscape => "Landscape Mode"@,
        ExposureMode::Bulb => "Bulb Flash"@,
    }
}

impl Default for ExposureMode {
    fn default() -> (m: Self)
        ensures
            m == ExposureMode::Undefined,
    {
        ExposureMode::Undefined
    }
}

/// Information about the camera used to make the photo.
#[derive(Debug)]
pub struct Camera {
    /// Make and model of the camera
    pub name: String,
    /// Exposure compensation as text, to permit arbitrary fractions
    pub compensation: Option<String>,
    /// Shutter speed as text, to permit arbitrary fractions
    pub shutter_speed: Option<String>,
    pub mode: ExposureMode,
    pub iso: Option<u16>,
    /// Description of the lens used
    pub lens: Option<String>,
}

#[derive(Debug)]
pub struct Photo {
    /// Name of photographer recorded in EXIF
    pub artist: Option<String>,
    /// Name of software used to process the photo
    pub software: String,
    pub title: Option<String>,
    pub caption: Option<String>,
    /// Information about the camera used to make the photo
    pub camera: Option<Camera>,
    /// One-based position of photo within post
    pub index: u8,
    /// Tags applied to the photo
    pub tags: Vec<String>,
    /// When the photograph was taken per camera EXIF
    pub date_taken: Option<Moment>,
    /// Whether the taken date is an outlier compared to other photos in the
    /// same post
    pub outlier_date: bool,
    /// Sizes in which the photo is available
    pub size: SizeCollection,
    pub file: PhotoFile,
}

/// Views of camera text after sanitizing.
pub open spec fn sanitized_camera(c: Camera, config: ExifConfig) -> (Seq<char>, Option<Seq<char>>) {
    (
        replace_pairs_spec(c.name@, pairs_view(config.camera@)),
        match c.lens {
            Some(l) => Some(replace_pairs_spec(l@, pairs_view(config.lens@))),
            None => None,
        },
    )
}

/// Photo `after` is photo `before` with software, camera and lens names
/// standardized by the configured pairs.
pub open spec fn sanitized(before: Photo, after: Photo, config: ExifConfig) -> bool {
    &&& after.software@ == replace_pairs_spec(before.software@, pairs_view(config.software@))
    &&& after.camera is Some == before.camera is Some
    &&& after.camera matches Some(c) ==> {
        let o = before.camera.unwrap();
        &&& (c.name@, match c.lens {
            Some(l) => Some(l@),
            None => None,
        }) == sanitized_camera(o, config)
        &&& c.compensation == o.compensation
        &&& c.shutter_speed == o.shutter_speed
        &&& c.mode == o.mode
        &&& c.iso == o.iso
    }
    &&& after.index == before.index
    &&& after.tags == before.tags
    &&& after.date_taken == before.date_taken
    &&& after.outlier_date == before.outlier_date
    &&& after.artist == before.artist
    &&& after.title == before.title
    &&& after.caption == before.caption
    &&& after.size == before.size
    &&& after.file == before.file
}

impl Photo {
    /// Standardize software, camera and lens names by the configured pairs.
    pub fn sanitize(&mut self, config: &ExifConfig)
        ensures
            sanitized(*old(self), *final(self), *config),
    {
        self.software = replace_pairs(self.software.clone(), config.software.as_slice());
        match self.camera.take() {
            Some(mut c) => {
                c.name = replace_pairs(c.name.clone(), config.camera.as_slice());
                c.lens = match c.lens.take() {
                    Some(l) => Some(replace_pairs(l, config.lens.as_slice())),
                    None => None,
                };
                self.camera = Some(c);
            },
            None => {},
        }
    }

    /// Whether photo is in portrait orientation (taller than wide).
    pub fn is_portrait(&self) -> (b: bool)
        ensures
            b == (self.size.original.width < self.size.original.height),
    {
        self.size.is_portrait()
    }

    /// Whether two photos are the same: same file name and taken date.
    pub fn same_as(&self, other: &Photo) -> (b: bool)
        ensures
            b == (self.file.name@ == other.file.name@ && self.date_taken == other.date_taken),
    {
        let same_date = match (self.date_taken, other.date_taken) {
            (Some(a), Some(b)) => a.timestamp == b.timestamp && a.offset == b.offset,
            (None, None) => true,
            _ => false,
        };
        string_eq(&self.file.name, &other.file.name) && same_date
    }
}

/// Whether two strings hold the same characters.
pub fn string_eq(a: &String, b: &String) -> (r: bool)
    ensures
        r == (a@ == b@),
{
    let x = crate::text::chars_of(a.as_str());
    let y = crate::text::chars_of(b.as_str());
    if x.len() != y.len() {
        return false;
    }
    let r = crate::text::seq_at_exec(&x, 0, &y);
    assert(x@.subrange(0, y@.len() as int) =~= x@);
    r
}

} // verus!

verus! {

impl Default for Photo {
    /// A photo with nothing known of it: no file name, index 0, no tags,
    /// date, camera or caption, empty sizes.
    fn default() -> (p: Photo)
        ensures
            p.file.name@.len() == 0,
            p.file.created == 0,
            p.artist is None,
            p.software@.len() == 0,
            p.title is None,
            p.caption is None,
            p.camera is None,
            p.index == 0,
            p.tags@.len() == 0,
            p.date_taken is None,
            !p.outlier_date,
            p.size.original.width == 0 && p.size.original.height == 0,
    {
        Photo {
            file: PhotoFile { name: String::new(), created: 0 },
            artist: None,
            software: String::new(),
            title: None,
            caption: None,
            camera: None,
            index: 0,
            tags: Vec::new(),
            date_taken: None,
            outlier_date: false,
            size: SizeCollection::default(),
        }
    }
}

} // verus!
