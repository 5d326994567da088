use seam_carve::config::{
    get_extension, get_format, validate_dimension, validate_dist, validate_extension, Config,
    Format,
};

fn config(input: &str) -> Config {
    Config {
        input_path: input.to_string(),
        output_path: None,
        width: Some(10),
        height: None,
        dimensions: None,
        debug_path: None,
        time: false,
    }
}

#[test]
fn dimensions_flag_gives_both_targets() {
    let c = Config::try_from(
        "in.png".to_string(),
        None,
        None,
        None,
        Some(vec!["100".to_string(), "200".to_string()]),
        None,
        false,
    )
    .unwrap();
    assert_eq!(c.dimensions, Some((100, 200)));
    assert_eq!(c.seam_counts(50, 50), (50, 150));
}

#[test]
fn dimensions_with_width_or_height_are_refused() {
    let dims = || Some(vec!["100".to_string(), "200".to_string()]);
    assert!(Config::try_from("in.png".to_string(), None, Some("5".to_string()), None, dims(), None, false).is_err());
    assert!(Config::try_from("in.png".to_string(), None, None, Some("5".to_string()), dims(), None, false).is_err());
    assert!(Config::try_from("in.png".to_string(), None, None, None, None, None, false).is_err());
}

#[test]
fn width_and_height_targets() {
    let c = Config::try_from(
        "in.png".to_string(),
        Some("out.png".to_string()),
        Some("-3".to_string()),
        Some("40".to_string()),
        None,
        None,
        true,
    )
    .unwrap();
    assert_eq!(c.width, Some(-3));
    assert_eq!(c.height, Some(40));
    assert!(c.time);
    assert_eq!(c.seam_counts(5, 30), (-8, 10));
}

#[test]
fn parse_dimensions_needs_two_numbers() {
    assert_eq!(Config::parse_dimensions(&vec!["3".to_string(), "4".to_string()]), Some((3, 4)));
    assert_eq!(Config::parse_dimensions(&vec!["3".to_string()]), None);
    assert_eq!(Config::parse_dimensions(&vec!["-3".to_string(), "4".to_string()]), None);
}

#[test]
fn distances_and_dimensions_are_validated() {
    assert_eq!(validate_dist("-12".to_string()), Ok(()));
    assert_eq!(validate_dist("+7".to_string()), Ok(()));
    assert_eq!(validate_dist("1x".to_string()), Err("Invalid distance".to_string()));
    assert_eq!(validate_dimension("8".to_string()), Ok(()));
    assert_eq!(
        validate_dimension("0".to_string()),
        Err("Dimension must be greater than zero".to_string())
    );
    assert_eq!(validate_dimension("abc".to_string()), Err("Invalid dimension".to_string()));
}

#[test]
fn extensions_map_to_formats() {
    assert_eq!(get_extension("dir/photo.PNG"), Some("png".to_string()));
    assert_eq!(get_extension("dir/photo"), None);
    assert_eq!(get_format("a.jpeg"), Ok(Format::Jpeg));
    assert_eq!(get_format("a.JPG"), Ok(Format::Jpeg));
    assert_eq!(get_format("a.tif"), Ok(Format::Tiff));
    assert_eq!(get_format("a.hdr"), Ok(Format::Hdr));
    assert_eq!(get_format("a.txt"), Err("Invalid file extension".to_string()));
    assert_eq!(get_format("a"), Err("No file extension given.".to_string()));
    assert_eq!(validate_extension("out.webp".to_string()), Ok(()));
    assert!(validate_extension("out".to_string()).is_err());
}

#[test]
fn default_output_path_sits_beside_input() {
    let mut c = config("dir/photo.jpg");
    assert_eq!(c.get_output_path(), Some("dir/photo-resized.jpg".to_string()));
    assert_eq!(c.output_path, Some("dir/photo-resized.jpg".to_string()));
    let mut given = config("dir/photo.jpg");
    given.output_path = Some("elsewhere.png".to_string());
    assert_eq!(given.get_output_path(), Some("elsewhere.png".to_string()));
    let mut bare = config("dir/photo");
    assert_eq!(bare.get_default_path(), None);
}

#[test]
fn unparseable_values_are_refused() {
    let bad_width = Config::try_from("in.png".to_string(), None, Some("wide".to_string()), None, None, None, false);
    assert_eq!(bad_width.unwrap_err(), "Invalid distance".to_string());
    let bad_height = Config::try_from("in.png".to_string(), None, Some("4".to_string()), Some("1.5".to_string()), None, None, false);
    assert_eq!(bad_height.unwrap_err(), "Invalid distance".to_string());
    let bad_dims = Config::try_from(
        "in.png".to_string(),
        None,
        None,
        None,
        Some(vec!["100".to_string(), "tall".to_string()]),
        None,
        false,
    );
    assert_eq!(bad_dims.unwrap_err(), "Invalid dimension".to_string());
}
