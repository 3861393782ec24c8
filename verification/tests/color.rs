use herdr_badges::color::{parse_color, resolve_color, resolve_style, BadgeColor};

#[test]
fn resolve_color_handles_hex_named_reset() {
    assert_eq!(resolve_color("#89b4fa"), BadgeColor::Rgb(0x89, 0xb4, 0xfa));
    assert_eq!(resolve_color("#abc"), BadgeColor::Rgb(0xaa, 0xbb, 0xcc));
    assert_eq!(resolve_color("red"), BadgeColor::Red);
    assert_eq!(resolve_color("reset"), BadgeColor::Reset);
    assert_eq!(resolve_color(""), BadgeColor::Reset);
}

#[test]
fn parse_color_reads_rgb_and_names() {
    assert_eq!(parse_color("rgb(1,2,3)"), BadgeColor::Rgb(1, 2, 3));
    assert_eq!(parse_color("rgb( 255 , 0 ,10 )"), BadgeColor::Rgb(255, 0, 10));
    assert_eq!(parse_color("rgb(256,0,0)"), BadgeColor::Reset);
    assert_eq!(parse_color("rgb(1,2)"), BadgeColor::Reset);
    assert_eq!(parse_color("rgb(1,2,3,4)"), BadgeColor::Reset);
    assert_eq!(parse_color("LightBlue"), BadgeColor::LightBlue);
    assert_eq!(parse_color("GREY"), BadgeColor::Gray);
    assert_eq!(parse_color("default"), BadgeColor::Reset);
    assert_eq!(parse_color("none"), BadgeColor::Reset);
    assert_eq!(parse_color("#FFF"), BadgeColor::Rgb(255, 255, 255));
    assert_eq!(parse_color("#12345g"), BadgeColor::Reset);
    assert_eq!(parse_color("chartreuse"), BadgeColor::Reset);
}

#[test]
fn resolve_style_sets_foreground_only() {
    assert_eq!(resolve_style("cyan").fg, Some(BadgeColor::Cyan));
    assert_eq!(resolve_style("").fg, Some(BadgeColor::Reset));
}
