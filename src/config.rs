use vstd::prelude::*;
use vstd::string::StringExecFns;

verus! {

/// Whether `s` is a run of one or more ASCII decimal digits.
pub open spec fn all_digits(s: Seq<char>) -> bool {
    s.len() > 0 && forall|i: int| 0 <= i < s.len() ==> '0' <= #[trigger] s[i] <= '9'
}

/// The number that a run of decimal digits writes.
pub open spec fn digits_value(s: Seq<char>) -> int
    decreases s.len(),
{
    if s.len() == 0 {
        0
    } else {
        digits_value(s.drop_last()) * 10 + (s.last() as int - '0' as int)
    }
}

/// The integer that `s` writes in decimal: an optional sign, then digits
/// only, with nothing around them.
pub open spec fn decimal_value(s: Seq<char>) -> Option<int> {
    if s.len() > 0 && s[0] == '-' && all_digits(s.drop_first()) {
        Some(-digits_value(s.drop_first()))
    } else if s.len() > 0 && s[0] == '+' && all_digits(s.drop_first()) {
        Some(digits_value(s.drop_first()))
    } else if all_digits(s) {
        Some(digits_value(s))
    } else {
        None
    }
}

/// `s` read as an `isize`, or nothing where it writes no integer or one out
/// of range.
pub open spec fn isize_value(s: Seq<char>) -> Option<isize> {
    match decimal_value(s) {
        Some(v) => if isize::MIN <= v <= isize::MAX {
            Some(v as isize)
        } else {
            None
        },
        None => None,
    }
}

/// `s` read as a `usize`: no minus sign, and in range.
pub open spec fn usize_value(s: Seq<char>) -> Option<usize> {
    match decimal_value(s) {
        Some(v) => if s[0] != '-' && 0 <= v <= usize::MAX {
            Some(v as usize)
        } else {
            None
        },
        None => None,
    }
}

/// Relies on `str::parse::<isize>`: an optional `+` or `-`, then ASCII
/// digits only; anything else, or a value out of range, is an error.
#[verifier::external_body]
fn parse_isize(s: &str) -> (r: Option<isize>)
    ensures
        r == isize_value(s@),
{
    s.parse::<isize>().ok()
}

/// Relies on `str::parse::<usize>`: an optional `+`, then ASCII digits
/// only; anything else, or a value out of range, is an error.
#[verifier::external_body]
fn parse_usize(s: &str) -> (r: Option<usize>)
    ensures
        r == usize_value(s@),
{
    s.parse::<usize>().ok()
}

/// What `Path::extension` gives for a path: the part of its file name after
/// the last dot, if any.
pub uninterp spec fn extension_of(path: Seq<char>) -> Option<Seq<char>>;

/// What `Path::file_stem` gives for a path: its file name up to the last dot.
pub uninterp spec fn stem_of(path: Seq<char>) -> Option<Seq<char>>;

/// What `Path::with_file_name` gives: the path with its file name replaced.
pub uninterp spec fn with_file_name_of(path: Seq<char>, name: Seq<char>) -> Seq<char>;

/// What `Path::with_extension` gives: the path with its extension replaced.
pub uninterp spec fn with_extension_of(path: Seq<char>, ext: Seq<char>) -> Seq<char>;

/// What `str::to_lowercase` gives.
pub uninterp spec fn lower_of(s: Seq<char>) -> Seq<char>;

pub open spec fn opt_view(o: Option<String>) -> Option<Seq<char>> {
    match o {
        Some(s) => Some(s@),
        None => None,
    }
}

/// Relies on `Path::extension`, read back as UTF-8 text. The extension is
/// part of the file name, which holds no path separator.
#[verifier::external_body]
fn path_extension(path: &str) -> (r: Option<String>)
    ensures
        opt_view(r) == extension_of(path@),
        r.is_some() ==> !r.unwrap()@.contains('/'),
{
    std::path::Path::new(path).extension().map(|e| e.to_string_lossy().into_owned())
}

/// Relies on `Path::file_stem`, read back as UTF-8 text.
#[verifier::external_body]
fn path_file_stem(path: &str) -> (r: Option<String>)
    ensures
        opt_view(r) == stem_of(path@),
{
    std::path::Path::new(path).file_stem().map(|e| e.to_string_lossy().into_owned())
}

/// Relies on `Path::with_file_name`, read back as UTF-8 text.
#[verifier::external_body]
fn path_with_file_name(path: &str, name: &str) -> (r: String)
    ensures
        r@ == with_file_name_of(path@, name@),
{
    std::path::Path::new(path).with_file_name(name).to_string_lossy().into_owned()
}

/// Relies on `Path::with_extension`, read back as UTF-8 text; it panics on
/// an extension that holds a path separator.
#[verifier::external_body]
fn path_with_extension(path: &str, ext: &str) -> (r: String)
    requires
        !ext@.contains('/'),
    ensures
        r@ == with_extension_of(path@, ext@),
{
    std::path::Path::new(path).with_extension(ext).to_string_lossy().into_owned()
}

/// Relies on `str::to_lowercase`.
#[verifier::external_body]
fn lowercase(s: &str) -> (r: String)
    ensures
        r@ == lower_of(s@),
{
    s.to_lowercase()
}

pub open spec fn invalid_distance() -> Seq<char> {
    "Invalid distance"@
}

pub open spec fn invalid_dimension() -> Seq<char> {
    "Invalid dimension"@
}

pub open spec fn dimension_not_positive() -> Seq<char> {
    "Dimension must be greater than zero"@
}

pub open spec fn invalid_extension() -> Seq<char> {
    "Invalid file extension"@
}

pub open spec fn no_extension() -> Seq<char> {
    "No file extension given."@
}

/// Accepts a signed distance: any text that reads as an `isize`.
pub fn validate_dist(s: String) -> (r: Result<(), String>)
    ensures
        r.is_ok() <==> isize_value(s@).is_some(),
        r.is_err() ==> r.unwrap_err()@ == invalid_distance(),
{
    match parse_isize(s.as_str()) {
        Some(_) => Ok(()),
        None => Err("Invalid distance".to_owned()),
    }
}

/// Accepts a dimension: text that reads as an `isize` above zero.
pub fn validate_dimension(s: String) -> (r: Result<(), String>)
    ensures
        r.is_ok() <==> (isize_value(s@).is_some() && isize_value(s@).unwrap() > 0),
        isize_value(s@).is_none() ==> r.is_err() && r.unwrap_err()@ == invalid_dimension(),
        isize_value(s@).is_some() && isize_value(s@).unwrap() <= 0 ==> r.is_err()
            && r.unwrap_err()@ == dimension_not_positive(),
{
    match parse_isize(s.as_str()) {
        Some(n) => {
            if n <= 0 {
                Err("Dimension must be greater than zero".to_owned())
            } else {
                Ok(())
            }
        },
        None => Err("Invalid dimension".to_owned()),
    }
}

/// The image container formats that an output path may name.
#[derive(Clone, Copy, Debug, PartialEq, Eq, Structural)]
pub enum Format {
    Png,
    Jpeg,
    Gif,
    Webp,
    Ppm,
    Tiff,
    Tga,
    Bmp,
    Ico,
    Hdr,
}

/// The format that a lower-case extension names.
pub open spec fn format_of(ext: Seq<char>) -> Option<Format> {
    if ext == "png"@ {
        Some(Format::Png)
    } else if ext == "jpg"@ || ext == "jpeg"@ {
        Some(Format::Jpeg)
    } else if ext == "gif"@ {
        Some(Format::Gif)
    } else if ext == "webp"@ {
        Some(Format::Webp)
    } else if ext == "ppm"@ {
        Some(Format::Ppm)
    } else if ext == "tif"@ || ext == "tiff"@ {
        Some(Format::Tiff)
    } else if ext == "tga"@ {
        Some(Format::Tga)
    } else if ext == "bmp"@ {
        Some(Format::Bmp)
    } else if ext == "ico"@ {
        Some(Format::Ico)
    } else if ext == "hdr"@ {
        Some(Format::Hdr)
    } else {
        None
    }
}

/// The lower-cased extension of a path.
pub open spec fn lower_extension(path: Seq<char>) -> Option<Seq<char>> {
    match extension_of(path) {
        Some(e) => Some(lower_of(e)),
        None => None,
    }
}

/// The extension of `path`, lower-cased.
pub fn get_extension(path: &str) -> (r: Option<String>)
    ensures
        opt_view(r) == lower_extension(path@),
{
    match path_extension(path) {
        Some(e) => Some(lowercase(e.as_str())),
        None => None,
    }
}

fn is_word(s: &String, w: &str) -> (r: bool)
    ensures
        r == (s@ == w@),
{
    let word = w.to_owned();
    *s == word
}

/// The format named by a lower-case extension.
pub fn format_for_extension(ext: &String) -> (r: Option<Format>)
    ensures
        r == format_of(ext@),
{
    if is_word(ext, "png") {
        Some(Format::Png)
    } else if is_word(ext, "jpg") || is_word(ext, "jpeg") {
        Some(Format::Jpeg)
    } else if is_word(ext, "gif") {
        Some(Format::Gif)
    } else if is_word(ext, "webp") {
        Some(Format::Webp)
    } else if is_word(ext, "ppm") {
        Some(Format::Ppm)
    } else if is_word(ext, "tif") || is_word(ext, "tiff") {
        Some(Format::Tiff)
    } else if is_word(ext, "tga") {
        Some(Format::Tga)
    } else if is_word(ext, "bmp") {
        Some(Format::Bmp)
    } else if is_word(ext, "ico") {
        Some(Format::Ico)
    } else if is_word(ext, "hdr") {
        Some(Format::Hdr)
    } else {
        None
    }
}

/// The output format that the extension of `path` names, case aside.
pub fn get_format(path: &str) -> (r: Result<Format, String>)
    ensures
        lower_extension(path@).is_none() ==> r.is_err() && r.unwrap_err()@ == no_extension(),
        lower_extension(path@).is_some() ==> match format_of(lower_extension(path@).unwrap()) {
            Some(f) => r == Ok::<Format, String>(f),
            None => r.is_err() && r.unwrap_err()@ == invalid_extension(),
        },
{
    match get_extension(path) {
        Some(ext) => match format_for_extension(&ext) {
            Some(f) => Ok(f),
            None => Err("Invalid file extension".to_owned()),
        },
        None => Err("No file extension given.".to_owned()),
    }
}

/// Accepts an output path whose extension names a known format.
pub fn validate_extension(s: String) -> (r: Result<(), String>)
    ensures
        r.is_ok() <==> (lower_extension(s@).is_some() && format_of(lower_extension(s@).unwrap()).is_some()),
        lower_extension(s@).is_none() ==> r.is_err() && r.unwrap_err()@ == no_extension(),
        lower_extension(s@).is_some() && format_of(lower_extension(s@).unwrap()).is_none() ==> r.is_err()
            && r.unwrap_err()@ == invalid_extension(),
{
    match get_format(s.as_str()) {
        Ok(_) => Ok(()),
        Err(e) => Err(e),
    }
}

/// The default output path: beside the input, named `<stem>-resized.<ext>`;
/// nothing where the input has no stem or no extension.
pub open spec fn default_path_of(input: Seq<char>) -> Option<Seq<char>> {
    match (stem_of(input), extension_of(input)) {
        (Some(stem), Some(ext)) => Some(
            with_extension_of(with_file_name_of(input, stem + "-resized"@), ext),
        ),
        _ => None,
    }
}

pub open spec fn dimensions_conflict() -> Seq<char> {
    "The dimensions cannot be used with a width or a height"@
}

pub open spec fn size_missing() -> Seq<char> {
    "A width, a height or the dimensions are required"@
}

/// A width or a height that is either not given or reads as an `isize`.
pub open spec fn distance_given_ok(v: Option<String>) -> bool {
    match v {
        Some(s) => isize_value(s@).is_some(),
        None => true,
    }
}

/// The settings of one resize request.
#[derive(Debug)]
pub struct Config {
    pub input_path: String,
    pub output_path: Option<String>,
    pub width: Option<isize>,
    pub height: Option<isize>,
    pub dimensions: Option<(usize, usize)>,
    pub debug_path: Option<String>,
    pub time: bool,
}

/// The signed number of seams that takes `current` to `target`.
pub open spec fn seams_to(target: int, current: int) -> int {
    target - current
}

impl Config {
    /// The settings read from the command line's values. Fails where the
    /// dimensions come with a width or a height, where none of the three is
    /// given, where a given width or height reads as no `isize`, or where
    /// given dimensions are not two `usize` values.
    pub fn try_from(
        input_path: String,
        output_path: Option<String>,
        width: Option<String>,
        height: Option<String>,
        dimensions: Option<Vec<String>>,
        debug_path: Option<String>,
        time: bool,
    ) -> (r: Result<Config, String>)
        ensures
            dimensions.is_some() && (width.is_some() || height.is_some()) ==> r.is_err()
                && r.unwrap_err()@ == dimensions_conflict(),
            dimensions.is_none() && width.is_none() && height.is_none() ==> r.is_err()
                && r.unwrap_err()@ == size_missing(),
            dimensions.is_none() && (width.is_some() || height.is_some()) && !(
            distance_given_ok(width) && distance_given_ok(height)) ==> r.is_err()
                && r.unwrap_err()@ == invalid_distance(),
            dimensions.is_some() && width.is_none() && height.is_none()
                && Self::dimensions_value(dimensions.unwrap()@).is_none() ==> r.is_err()
                && r.unwrap_err()@ == invalid_dimension(),
            r.is_ok() <==> ((dimensions.is_some() != (width.is_some() || height.is_some()))
                && distance_given_ok(width) && distance_given_ok(height) && (dimensions.is_some()
                ==> Self::dimensions_value(dimensions.unwrap()@).is_some())),
            r.is_ok() ==> ({
                let c = r.unwrap();
                &&& c.input_path == input_path
                &&& c.output_path == output_path
                &&& c.debug_path == debug_path
                &&& c.time == time
                &&& c.width == match width {
                    Some(w) => isize_value(w@),
                    None => None,
                }
                &&& c.height == match height {
                    Some(h) => isize_value(h@),
                    None => None,
                }
                &&& c.dimensions == match dimensions {
                    Some(v) => Self::dimensions_value(v@),
                    None => None,
                }
            }),
    {
        if dimensions.is_some() && (width.is_some() || height.is_some()) {
            return Err("The dimensions cannot be used with a width or a height".to_owned());
        }
        if dimensions.is_none() && width.is_none() && height.is_none() {
            return Err("A width, a height or the dimensions are required".to_owned());
        }
        let width = match width {
            Some(w) => match parse_isize(w.as_str()) {
                Some(n) => Some(n),
                None => {
                    return Err("Invalid distance".to_owned());
                },
            },
            None => None,
        };
        let height = match height {
            Some(h) => match parse_isize(h.as_str()) {
                Some(n) => Some(n),
                None => {
                    return Err("Invalid distance".to_owned());
                },
            },
            None => None,
        };
        let dimensions = match dimensions {
            Some(v) => match Self::parse_dimensions(&v) {
                Some(d) => Some(d),
                None => {
                    return Err("Invalid dimension".to_owned());
                },
            },
            None => None,
        };
        Ok(Config { input_path, output_path, width, height, dimensions, debug_path, time })
    }

    /// Two values, each read as a `usize`.
    pub open spec fn dimensions_value(values: Seq<String>) -> Option<(usize, usize)> {
        if values.len() == 2 && usize_value(values[0]@).is_some() && usize_value(values[1]@).is_some() {
            Some((usize_value(values[0]@).unwrap(), usize_value(values[1]@).unwrap()))
        } else {
            None
        }
    }

    /// The width and the height of `WIDTHxHEIGHT`, split at the `x`.
    pub fn parse_dimensions(values: &Vec<String>) -> (r: Option<(usize, usize)>)
        ensures
            r == Self::dimensions_value(values@),
    {
        if values.len() != 2 {
            return None;
        }
        let x = parse_usize(values[0].as_str());
        let y = parse_usize(values[1].as_str());
        match (x, y) {
            (Some(x), Some(y)) => Some((x, y)),
            _ => None,
        }
    }

    /// The target width: from the dimensions, else the width.
    pub open spec fn target_width(&self) -> Option<int> {
        match self.dimensions {
            Some(d) => Some(d.0 as int),
            None => match self.width {
                Some(w) => Some(w as int),
                None => None,
            },
        }
    }

    /// The target height: from the dimensions, else the height.
    pub open spec fn target_height(&self) -> Option<int> {
        match self.dimensions {
            Some(d) => Some(d.1 as int),
            None => match self.height {
                Some(h) => Some(h as int),
                None => None,
            },
        }
    }

    /// The signed numbers of columns and rows that take a `width` by `height`
    /// image to the target size; zero along an axis with no target.
    pub fn seam_counts(&self, width: usize, height: usize) -> (r: (i128, i128))
        ensures
            r.0 == match self.target_width() {
                Some(t) => seams_to(t, width as int),
                None => 0,
            },
            r.1 == match self.target_height() {
                Some(t) => seams_to(t, height as int),
                None => 0,
            },
    {
        match self.dimensions {
            Some((w, h)) => (w as i128 - width as i128, h as i128 - height as i128),
            None => {
                let dx: i128 = match self.width {
                    Some(w) => w as i128 - width as i128,
                    None => 0,
                };
                let dy: i128 = match self.height {
                    Some(h) => h as i128 - height as i128,
                    None => 0,
                };
                (dx, dy)
            },
        }
    }

    /// The output path: the one given, else the default beside the input,
    /// which is then kept as the output path. Nothing where no path was given
    /// and the input has no stem or no extension.
    pub fn get_output_path(&mut self) -> (r: Option<String>)
        ensures
            old(self).output_path.is_some() ==> r == old(self).output_path && *final(self)
                == *old(self),
            old(self).output_path.is_none() ==> opt_view(r) == default_path_of(old(self).input_path@)
                && final(self).output_path == r,
            final(self).input_path == old(self).input_path,
            final(self).width == old(self).width,
            final(self).height == old(self).height,
            final(self).dimensions == old(self).dimensions,
            final(self).debug_path == old(self).debug_path,
            final(self).time == old(self).time,
    {
        match &self.output_path {
            Some(p) => Some(p.clone()),
            None => self.get_default_path(),
        }
    }

    /// Sets the output path to `<stem>-resized.<ext>` beside the input and
    /// returns it; nothing, and no change, where the input has no stem or no
    /// extension.
    pub fn get_default_path(&mut self) -> (r: Option<String>)
        ensures
            opt_view(r) == default_path_of(old(self).input_path@),
            r.is_some() ==> final(self).output_path == r,
            r.is_none() ==> final(self).output_path == old(self).output_path,
            final(self).input_path == old(self).input_path,
            final(self).width == old(self).width,
            final(self).height == old(self).height,
            final(self).dimensions == old(self).dimensions,
            final(self).debug_path == old(self).debug_path,
            final(self).time == old(self).time,
    {
        let stem = path_file_stem(self.input_path.as_str());
        let ext = path_extension(self.input_path.as_str());
        match (stem, ext) {
            (Some(stem), Some(ext)) => {
                let mut name = stem;
                name.append("-resized");
                let renamed = path_with_file_name(self.input_path.as_str(), name.as_str());
                let out = path_with_extension(renamed.as_str(), ext.as_str());
                self.output_path = Some(out.clone());
                Some(out)
            },
            _ => None,
        }
    }
}

} // verus!
