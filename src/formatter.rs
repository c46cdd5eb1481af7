use vstd::prelude::*;
use vstd::string::*;

use crate::colors::{color_text, Color};

verus! {

/// A drawing style: optional colors for foreground, background, underline and
/// overline, and whether foreground and background are swapped.
#[derive(Clone, Copy, Debug, PartialEq, Eq, Structural)]
pub struct Formatter {
    pub foreground: Option<Color>,
    pub background: Option<Color>,
    pub underline: Option<Color>,
    pub overline: Option<Color>,
    /// Inverts foreground / background colors
    pub highlight: bool,
}

impl Default for Formatter {
    fn default() -> (r: Formatter)
        ensures
            r == plain_style(),
    {
        Formatter {
            foreground: None,
            background: None,
            underline: None,
            overline: None,
            highlight: false,
        }
    }
}

/// The style that decorates nothing.
pub open spec fn plain_style() -> Formatter {
    Formatter { foreground: None, background: None, underline: None, overline: None, highlight: false }
}

pub open spec fn str_view(o: Option<&str>) -> Option<Seq<char>> {
    match o {
        Some(s) => Some(s@),
        None => None,
    }
}

/// `inner` between `open` and `close`.
pub open spec fn enclose(open: Seq<char>, inner: Seq<char>, close: Seq<char>) -> Seq<char> {
    open + inner + close
}

pub open spec fn background_open(c: Color) -> Seq<char> {
    "%{B"@ + color_text(c) + "}"@
}

pub open spec fn foreground_open(c: Color) -> Seq<char> {
    "%{F"@ + color_text(c) + "}"@
}

pub open spec fn underline_open(c: Color) -> Seq<char> {
    "%{u"@ + color_text(c) + "}%{+u}"@
}

pub open spec fn overline_open(c: Color) -> Seq<char> {
    "%{o"@ + color_text(c) + "}%{+o}"@
}

pub open spec fn link_open(l: Seq<char>) -> Seq<char> {
    "%{A1:"@ + l + ":}"@
}

/// `text` inside the action link, if any.
pub open spec fn with_link(t: Seq<char>, link: Option<Seq<char>>) -> Seq<char> {
    match link {
        Some(l) => enclose(link_open(l), t, "%{A}"@),
        None => t,
    }
}

pub open spec fn with_overline_layer(t: Seq<char>, c: Option<Color>) -> Seq<char> {
    match c {
        Some(c) => enclose(overline_open(c), t, "%{-o}"@),
        None => t,
    }
}

pub open spec fn with_underline_layer(t: Seq<char>, c: Option<Color>) -> Seq<char> {
    match c {
        Some(c) => enclose(underline_open(c), t, "%{-u}"@),
        None => t,
    }
}

pub open spec fn with_highlight_layer(t: Seq<char>, h: bool) -> Seq<char> {
    if h {
        enclose("%{R}"@, t, "%{R}"@)
    } else {
        t
    }
}

pub open spec fn with_foreground_layer(t: Seq<char>, c: Option<Color>) -> Seq<char> {
    match c {
        Some(c) => enclose(foreground_open(c), t, "%{F-}"@),
        None => t,
    }
}

pub open spec fn with_background_layer(t: Seq<char>, c: Option<Color>) -> Seq<char> {
    match c {
        Some(c) => enclose(background_open(c), t, "%{B-}"@),
        None => t,
    }
}

/// The decorated text: background outermost, then foreground, highlight,
/// underline, overline, and the action link innermost around the text. Each
/// decoration closes where it opened, so the closing tokens come in the
/// reverse order of the opening ones.
pub open spec fn styled(f: Formatter, text: Seq<char>, link: Option<Seq<char>>) -> Seq<char> {
    with_background_layer(
        with_foreground_layer(
            with_highlight_layer(
                with_underline_layer(
                    with_overline_layer(with_link(text, link), f.overline),
                    f.underline,
                ),
                f.highlight,
            ),
            f.foreground,
        ),
        f.background,
    )
}

/// Background, foreground and underline on one fragment open in that order
/// before the text and close in the reverse order after it.
pub proof fn lemma_decorations_nest(f: Formatter, text: Seq<char>)
    requires
        f.background is Some,
        f.foreground is Some,
        f.underline is Some,
        f.overline is None,
        !f.highlight,
    ensures
        styled(f, text, None) == background_open(f.background->0) + foreground_open(
            f.foreground->0,
        ) + underline_open(f.underline->0) + text + "%{-u}"@ + "%{F-}"@ + "%{B-}"@,
{
    let b = background_open(f.background->0);
    let fg = foreground_open(f.foreground->0);
    let u = underline_open(f.underline->0);
    assert(styled(f, text, None) =~= b + fg + u + text + "%{-u}"@ + "%{F-}"@ + "%{B-}"@);
}

fn enclose_text(open: String, inner: String, close: &str) -> (r: String)
    ensures
        r@ == enclose(open@, inner@, close@),
{
    open.concat(inner.as_str()).concat(close)
}

fn color_token(head: &str, c: Color, tail: &str) -> (r: String)
    ensures
        r@ == head@ + color_text(c) + tail@,
{
    String::from_str(head).concat(c.to_string().as_str()).concat(tail)
}

impl Formatter {
    /// This style with another background.
    pub fn with_background(&self, bg: Option<Color>) -> (r: Self)
        ensures
            r == (Formatter { background: bg, ..*self }),
    {
        Self { background: bg, ..*self }
    }

    /// This style with another underline.
    pub fn with_underline(&self, fg: Option<Color>) -> (r: Self)
        ensures
            r == (Formatter { underline: fg, ..*self }),
    {
        Self { underline: fg, ..*self }
    }

    /// This style with another overline.
    pub fn with_overline(&self, fg: Option<Color>) -> (r: Self)
        ensures
            r == (Formatter { overline: fg, ..*self }),
    {
        Self { overline: fg, ..*self }
    }

    /// This style with another foreground.
    pub fn with_foreground(&self, fg: Option<Color>) -> (r: Self)
        ensures
            r == (Formatter { foreground: fg, ..*self }),
    {
        Self { foreground: fg, ..*self }
    }

    /// This style with highlighting switched on or off.
    pub fn with_highlight(&self, highlight: bool) -> (r: Self)
        ensures
            r == (Formatter { highlight, ..*self }),
    {
        Self { highlight, ..*self }
    }

    /// Decorates `text` with this style and, when given, an action link that
    /// runs `link` on a left click.
    pub fn format(&self, text: &str, link: Option<&str>) -> (r: String)
        ensures
            r@ == styled(*self, text@, str_view(link)),
    {
        let mut s = String::from_str(text);
        match link {
            Some(l) => {
                s = enclose_text(String::from_str("%{A1:").concat(l).concat(":}"), s, "%{A}");
            },
            None => {},
        }
        match self.overline {
            Some(c) => {
                s = enclose_text(color_token("%{o", c, "}%{+o}"), s, "%{-o}");
            },
            None => {},
        }
        match self.underline {
            Some(c) => {
                s = enclose_text(color_token("%{u", c, "}%{+u}"), s, "%{-u}");
            },
            None => {},
        }
        if self.highlight {
            s = enclose_text(String::from_str("%{R}"), s, "%{R}");
        }
        match self.foreground {
            Some(c) => {
                s = enclose_text(color_token("%{F", c, "}"), s, "%{F-}");
            },
            None => {},
        }
        match self.background {
            Some(c) => {
                s = enclose_text(color_token("%{B", c, "}"), s, "%{B-}");
            },
            None => {},
        }
        s
    }
}

} // verus!
