use polybar_iconography::colors::Color;
use polybar_iconography::formatter::Formatter;

fn col(s: &str) -> Option<Color> {
    Some(Color::try_from(s).unwrap())
}

#[test]
fn decorations_close_in_reverse_order() {
    let f = Formatter::default()
        .with_background(col("a22"))
        .with_foreground(col("fff"))
        .with_underline(col("123456"));
    assert_eq!(
        f.format("x", None),
        "%{B#AA2222}%{F#FFFFFF}%{u#123456}%{+u}x%{-u}%{F-}%{B-}"
    );
}

#[test]
fn every_decoration_and_link() {
    let f = Formatter {
        foreground: None,
        background: None,
        underline: None,
        overline: col("80ffffff"),
        highlight: true,
    };
    let f = f.with_foreground(col("010203"));
    assert_eq!(
        f.format("t", Some("cmd")),
        "%{F#010203}%{R}%{o#80FFFFFF}%{+o}%{A1:cmd:}t%{A}%{-o}%{R}%{F-}"
    );
}

#[test]
fn plain_style_leaves_text_alone() {
    assert_eq!(Formatter::default().format("abc", None), "abc");
    assert_eq!(Formatter::default().format("", Some("go")), "%{A1:go:}%{A}");
}

#[test]
fn variants_do_not_change_the_base() {
    let base = Formatter::default();
    let v = base.with_highlight(true).with_overline(col("fff"));
    assert!(!base.highlight);
    assert_eq!(base.overline, None);
    assert!(v.highlight);
    assert_eq!(v.overline, col("ffffff"));
}
