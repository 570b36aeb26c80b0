use planner::util::split_latlon;

fn parse_latlon(s: &str) -> Option<(f64, f64)> {
    let (lat, lon) = split_latlon(s)?;
    let lat = lat.trim().parse::<f64>().ok()?;
    let lon = lon.trim().parse::<f64>().ok()?;
    Some((lat, lon))
}

#[test]
fn parse_latlon_handles_valid_and_invalid_inputs() {
    assert_eq!(parse_latlon("48.137154,11.576124"), Some((48.137154, 11.576124)));
    assert_eq!(parse_latlon("48.137154"), None);
    assert_eq!(parse_latlon("x,y"), None);
}

#[test]
fn split_latlon_takes_the_parts_around_one_comma() {
    assert_eq!(split_latlon("48.137154,11.576124"), Some(("48.137154", "11.576124")));
    assert_eq!(split_latlon("x,y"), Some(("x", "y")));
    assert_eq!(split_latlon(" 48.1 , 11.5 "), Some((" 48.1 ", " 11.5 ")));
    assert_eq!(split_latlon(","), Some(("", "")));
    assert_eq!(split_latlon("a,"), Some(("a", "")));
    assert_eq!(split_latlon(",b"), Some(("", "b")));
    assert_eq!(split_latlon("\u{e9}t\u{e9},\u{1F6B2}"), Some(("\u{e9}t\u{e9}", "\u{1F6B2}")));
}

#[test]
fn split_latlon_refuses_other_numbers_of_commas() {
    assert_eq!(split_latlon("48.137154"), None);
    assert_eq!(split_latlon(""), None);
    assert_eq!(split_latlon("1,2,3"), None);
    assert_eq!(split_latlon(",,"), None);
    assert_eq!(split_latlon("48,137154,11,576124"), None);
}
