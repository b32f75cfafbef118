use stc::token::Marker;

#[test]
fn test_marker_format_as_printable() {
    let mut marker = Marker::create("Some file.st", "hel\nlo\nwor\nld");
    marker.set(8, 2, 1);

    assert_eq!(
        "Some file.st:3:1\n    |\n 3  | wor\n    |  ^",
        marker.format_as_printable()
    );
}
