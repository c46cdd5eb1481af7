use vstd::prelude::*;
use vstd::string::*;

use crate::bspc::Node;
use crate::colors::{parse_color, Color, ColorParseError};
use crate::formatter::{str_view, Formatter};

verus! {

#[verifier::external_type_specification]
#[verifier::external_body]
pub struct ExRegex(regex::Regex);

/// Whether `pattern` compiles as a case-insensitive regular expression.
pub uninterp spec fn regex_compiles(pattern: Seq<char>) -> bool;

/// Whether the case-insensitive regular expression `pattern` matches
/// somewhere in `haystack`.
pub uninterp spec fn regex_finds(pattern: Seq<char>, haystack: Seq<char>) -> bool;

/// The lower-case form of a string.
pub uninterp spec fn lower_of(s: Seq<char>) -> Seq<char>;

/// A compiled regular expression together with the text it was compiled from.
/// It is only made by `Pattern::new`, so the two always agree.
pub struct Pattern {
    source: String,
    regex: regex::Regex,
}

impl View for Pattern {
    type V = Seq<char>;

    closed spec fn view(&self) -> Seq<char> {
        self.source@
    }
}

impl Pattern {
    /// Relies on regex::RegexBuilder::build, with case_insensitive set: it
    /// fails exactly on the patterns that do not compile, which depends on
    /// the pattern alone.
    #[verifier::external_body]
    pub(crate) fn new(source: &str) -> (r: Option<Pattern>)
        ensures
            r is Some <==> regex_compiles(source@),
            r is Some ==> r->0@ == source@,
    {
        match regex::RegexBuilder::new(source).case_insensitive(true).build() {
            Ok(regex) => Some(Pattern { source: source.to_string(), regex }),
            Err(_) => None,
        }
    }

    /// Relies on regex::Regex::is_match: whether the expression matches
    /// anywhere in the haystack.
    #[verifier::external_body]
    pub(crate) fn is_match(&self, haystack: &str) -> (r: bool)
        ensures
            r == regex_finds(self@, haystack@),
    {
        self.regex.is_match(haystack)
    }
}

/// Relies on str::to_lowercase: the result depends on the characters alone.
#[verifier::external_body]
fn lowercase(s: &str) -> (r: String)
    ensures
        r@ == lower_of(s@),
{
    s.to_lowercase()
}

/// A test on the (lower-cased) text of a window.
pub enum Predicate {
    Matches(Pattern),
    Contains(String),
    StartsWith(String),
}

/// Whether `t` occurs in `s` as a contiguous run.
pub open spec fn seq_contains(s: Seq<char>, t: Seq<char>) -> bool {
    exists|i: int| 0 <= i && i + t.len() <= s.len() && #[trigger] s.subrange(i, i + t.len()) == t
}

pub open spec fn seq_starts_with(s: Seq<char>, t: Seq<char>) -> bool {
    t.len() <= s.len() && s.subrange(0, t.len() as int) == t
}

/// Whether predicate `p` holds of `v`, ignoring case: both `v` and the
/// predicate's text are lower-cased before the test.
pub open spec fn predicate_holds(p: Predicate, v: Seq<char>) -> bool {
    let s = lower_of(v);
    match p {
        Predicate::Matches(r) => regex_finds(r@, s),
        Predicate::Contains(t) => seq_contains(s, lower_of(t@)),
        Predicate::StartsWith(t) => seq_starts_with(s, lower_of(t@)),
    }
}

/// Whether `t` occurs in `s` starting at position `i`.
fn occurs_at(s: &str, t: &str, i: usize) -> (r: bool)
    requires
        i + t@.len() <= s@.len(),
    ensures
        r == (s@.subrange(i as int, i + t@.len()) == t@),
{
    let n = s.unicode_len();
    let m = t.unicode_len();
    let mut k: usize = 0;
    while k < m
        invariant
            m == t@.len(),
            n == s@.len(),
            i + m <= n,
            k <= m,
            forall|j: int| 0 <= j < k ==> s@[i + j] == #[trigger] t@[j],
        decreases m - k,
    {
        if s.get_char(i + k) != t.get_char(k) {
            proof {
                assert(s@.subrange(i as int, i + m)[k as int] != t@[k as int]);
            }
            return false;
        }
        k += 1;
    }
    proof {
        assert(s@.subrange(i as int, i + m) =~= t@);
    }
    true
}

fn str_contains(s: &str, t: &str) -> (r: bool)
    ensures
        r == seq_contains(s@, t@),
{
    let n = s.unicode_len();
    let m = t.unicode_len();
    if m > n {
        return false;
    }
    if m == 0 {
        proof {
            assert(s@.subrange(0int, 0int + t@.len()) =~= t@);
        }
        return true;
    }
    let mut i: usize = 0;
    while i <= n - m
        invariant
            n == s@.len(),
            m == t@.len(),
            0 < m <= n,
            i <= n - m + 1,
            forall|j: int| 0 <= j < i ==> #[trigger] s@.subrange(j, j + m) != t@,
        decreases n - m + 1 - i,
    {
        if occurs_at(s, t, i) {
            return true;
        }
        i += 1;
    }
    false
}

fn str_starts_with(s: &str, t: &str) -> (r: bool)
    ensures
        r == seq_starts_with(s@, t@),
{
    if t.unicode_len() > s.unicode_len() {
        return false;
    }
    occurs_at(s, t, 0)
}

impl Predicate {
    /// Tests the predicate on `v`, ignoring case.
    pub fn is_match(&self, v: &str) -> (r: bool)
        ensures
            r == predicate_holds(*self, v@),
    {
        let v = lowercase(v);
        match self {
            Predicate::Matches(r) => r.is_match(v.as_str()),
            Predicate::Contains(t) => str_contains(v.as_str(), lowercase(t.as_str()).as_str()),
            Predicate::StartsWith(t) => str_starts_with(v.as_str(), lowercase(t.as_str()).as_str()),
        }
    }
}

/// The label shown for a group of windows.
pub struct Icon(pub String);

impl Icon {
    pub fn to_string(&self) -> (r: String)
        ensures
            r@ == self.0@,
    {
        self.0.clone()
    }
}

/// A rule: when the predicate holds, the icon applies, refined by the
/// optional nested rules.
pub struct PropertyListItem {
    pub predicate: Predicate,
    pub icon: Icon,
    pub sub_list: Option<Box<Property>>,
}

/// An ordered list of rules, tested on the class name or on the title.
pub enum Property {
    ClassName(Vec<PropertyListItem>),
    WindowTitle(Vec<PropertyListItem>),
}

/// All configured rule lists, tried in order.
pub struct Icons {
    pub icons: Vec<Property>,
    pub tick_rate: Option<u64>,
}

/// The text a rule list is tested on: the class name, or the title when it
/// is known.
pub open spec fn property_subject(p: Property, class: Seq<char>, title: Option<Seq<char>>) -> Option<
    Seq<char>,
> {
    match p {
        Property::ClassName(_) => Some(class),
        Property::WindowTitle(_) => title,
    }
}

pub open spec fn property_items(p: Property) -> Seq<PropertyListItem> {
    match p {
        Property::ClassName(items) => items@,
        Property::WindowTitle(items) => items@,
    }
}

/// The icon a rule list gives to a window of class `class` and title
/// `title`: that of its first rule that matches, if any.
pub open spec fn property_icon(p: Property, class: Seq<char>, title: Option<Seq<char>>) -> Option<
    Seq<char>,
>
    decreases p, 0int,
{
    match property_subject(p, class, title) {
        Some(s) => match p {
            Property::ClassName(items) => items_icon(items@, 0, s, class, title),
            Property::WindowTitle(items) => items_icon(items@, 0, s, class, title),
        },
        None => None,
    }
}

/// The icon of the first rule of `items` from `i` on that matches `s`.
pub open spec fn items_icon(
    items: Seq<PropertyListItem>,
    i: int,
    s: Seq<char>,
    class: Seq<char>,
    title: Option<Seq<char>>,
) -> Option<Seq<char>>
    decreases items, items.len() - i,
{
    if 0 <= i < items.len() {
        if predicate_holds(items[i].predicate, s) {
            item_icon(items[i], class, title)
        } else {
            items_icon(items, i + 1, s, class, title)
        }
    } else {
        None
    }
}

/// The icon of a rule whose predicate matched: what its nested rules give,
/// or else its own icon.
pub open spec fn item_icon(item: PropertyListItem, class: Seq<char>, title: Option<Seq<char>>) -> Option<
    Seq<char>,
>
    decreases item, 0int,
{
    match item.sub_list {
        Some(sub) => match property_icon(*sub, class, title) {
            Some(icon) => Some(icon),
            None => Some(item.icon.0@),
        },
        None => Some(item.icon.0@),
    }
}

/// The first rule whose predicate holds decides a rule list's icon: what its
/// nested rules give, or else its own icon, never a later rule's. So a rule
/// list whose subject is known and one of whose rules matches always gives an
/// icon.
pub proof fn lemma_first_match_decides(
    items: Seq<PropertyListItem>,
    i: int,
    s: Seq<char>,
    class: Seq<char>,
    title: Option<Seq<char>>,
)
    requires
        0 <= i < items.len(),
        predicate_holds(items[i].predicate, s),
        forall|j: int| 0 <= j < i ==> !predicate_holds(#[trigger] items[j].predicate, s),
    ensures
        items_icon(items, 0, s, class, title) == item_icon(items[i], class, title),
        items_icon(items, 0, s, class, title) is Some,
        items[i].sub_list is Some && property_icon(*items[i].sub_list->0, class, title) is None
            ==> items_icon(items, 0, s, class, title) == Some(items[i].icon.0@),
{
    lemma_items_icon_skip(items, 0, i, s, class, title);
}

proof fn lemma_items_icon_skip(
    items: Seq<PropertyListItem>,
    k: int,
    i: int,
    s: Seq<char>,
    class: Seq<char>,
    title: Option<Seq<char>>,
)
    requires
        0 <= k <= i < items.len(),
        forall|j: int| 0 <= j < i ==> !predicate_holds(#[trigger] items[j].predicate, s),
    ensures
        items_icon(items, k, s, class, title) == items_icon(items, i, s, class, title),
    decreases i - k,
{
    if k < i {
        assert(!predicate_holds(items[k].predicate, s));
        lemma_items_icon_skip(items, k + 1, i, s, class, title);
    }
}

/// The icon of the first rule list of `props` from `i` on that gives one.
pub open spec fn first_property_icon(
    props: Seq<Property>,
    i: int,
    class: Seq<char>,
    title: Option<Seq<char>>,
) -> Option<Seq<char>>
    decreases props.len() - i,
{
    if 0 <= i < props.len() {
        match property_icon(props[i], class, title) {
            Some(icon) => Some(icon),
            None => first_property_icon(props, i + 1, class, title),
        }
    } else {
        None
    }
}

/// The label of a window: the icon of the first rule list that gives one,
/// or else its title when known, or else its class name.
pub open spec fn window_label(props: Seq<Property>, class: Seq<char>, title: Option<Seq<char>>) -> Seq<
    char,
> {
    match first_property_icon(props, 0, class, title) {
        Some(icon) => icon,
        None => match title {
            Some(t) => t,
            None => class,
        },
    }
}

/// The class name of a window node.
pub open spec fn class_of(node: Node) -> Seq<char> {
    node.client->0.class_name@
}

pub open spec fn icon_view(i: Option<Icon>) -> Option<Seq<char>> {
    match i {
        Some(icon) => Some(icon.0@),
        None => None,
    }
}

impl PropertyListItem {
    /// The icon of this rule for a window whose tested text is `s`: none when
    /// the predicate fails, else what the nested rules give or this rule's icon.
    pub fn get_icon(&self, s: &str, node: &Node, title: Option<&str>) -> (r: Option<Icon>)
        requires
            node.client is Some,
        ensures
            icon_view(r) == (if predicate_holds(self.predicate, s@) {
                item_icon(*self, class_of(*node), str_view(title))
            } else {
                None
            }),
        decreases self,
    {
        if self.predicate.is_match(s) {
            if let Some(prop) = &self.sub_list {
                let sub = prop.get_icon(node, title);
                if sub.is_some() {
                    return sub;
                }
            }
            Some(Icon(self.icon.0.clone()))
        } else {
            None
        }
    }
}

fn find_item_icon(items: &Vec<PropertyListItem>, s: &str, node: &Node, title: Option<&str>) -> (r: Option<
    Icon,
>)
    requires
        node.client is Some,
    ensures
        icon_view(r) == items_icon(items@, 0, s@, class_of(*node), str_view(title)),
    decreases items,
{
    let mut i: usize = 0;
    while i < items.len()
        invariant
            node.client is Some,
            i <= items@.len(),
            items_icon(items@, 0, s@, class_of(*node), str_view(title)) == items_icon(
                items@,
                i as int,
                s@,
                class_of(*node),
                str_view(title),
            ),
        decreases items@.len() - i,
    {
        proof {
            assert(decreases_to!(items => items@[i as int]));
        }
        let r = items[i].get_icon(s, node, title);
        if r.is_some() {
            return r;
        }
        i += 1;
    }
    None
}

impl Property {
    /// The icon this rule list gives to `node`, whose title (if known) is
    /// `title`.
    pub fn get_icon(&self, node: &Node, title: Option<&str>) -> (r: Option<Icon>)
        requires
            node.client is Some,
        ensures
            icon_view(r) == property_icon(*self, class_of(*node), str_view(title)),
        decreases self,
    {
        match self {
            Property::ClassName(conditions) => {
                let s = node.client.as_ref().unwrap().class_name.as_str();
                find_item_icon(conditions, s, node, title)
            },
            Property::WindowTitle(conditions) => {
                match title {
                    Some(s) => find_item_icon(conditions, s, node, title),
                    None => None,
                }
            },
        }
    }
}

impl Icons {
    /// The label of a window node: see `window_label`.
    pub fn get_icon(&self, node: &Node, title: Option<&str>) -> (r: String)
        requires
            node.client is Some,
        ensures
            r@ == window_label(self.icons@, class_of(*node), str_view(title)),
    {
        let mut i: usize = 0;
        while i < self.icons.len()
            invariant
                node.client is Some,
                i <= self.icons@.len(),
                first_property_icon(self.icons@, 0, class_of(*node), str_view(title))
                    == first_property_icon(self.icons@, i as int, class_of(*node), str_view(title)),
            decreases self.icons@.len() - i,
        {
            if let Some(icon) = self.icons[i].get_icon(node, title) {
                return icon.to_string();
            }
            i += 1;
        }
        match title {
            Some(t) => String::from_str(t),
            None => node.client.as_ref().unwrap().class_name.clone(),
        }
    }
}

/// How windows and desktops are drawn.
pub struct DrawSettings {
    /// Put after a desktop's index glyph; a space when absent.
    pub prefix: Option<String>,
    /// Put after a desktop's windows.
    pub postfix: Option<String>,
    /// Drawn between two desktops of a monitor.
    pub separator: String,
    pub node_draw_mode: Formatter,
    pub focused_node_draw_mode: Formatter,
    pub urgent_node_draw_mode: Formatter,
    pub workspace_draw_mode: Formatter,
    pub focused_workspace_draw_mode: Formatter,
}

/// Everything a render needs besides the snapshot.
pub struct Settings {
    /// When set, only the monitor of this name is drawn.
    pub monitor: Option<String>,
    pub icons: Icons,
    pub draw_settings: DrawSettings,
}

/// The style values the environment supplies, each absent when unset.
pub struct StyleEnv {
    pub monitor: Option<String>,
    pub ws_start: Option<String>,
    pub ws_end: Option<String>,
    pub ws_separator: Option<String>,
    pub accent: Option<String>,
    pub urgent_foreground: Option<String>,
    pub urgent_background: Option<String>,
    pub urgent_accent: Option<String>,
    pub foreground: Option<String>,
    pub background: Option<String>,
    pub focused_foreground: Option<String>,
    pub focused_background: Option<String>,
    pub focused_accent: Option<String>,
}

/// A color setting: none when unset or empty, else the parsed color.
pub open spec fn env_color(v: Option<String>) -> Result<Option<Color>, ColorParseError> {
    match v {
        None => Ok(None),
        Some(s) => if s@.len() == 0 {
            Ok(None)
        } else {
            match parse_color(s@) {
                Ok(c) => Ok(Some(c)),
                Err(e) => Err(e),
            }
        },
    }
}

pub open spec fn white() -> Color {
    Color { a: None, r: 0xff, g: 0xff, b: 0xff }
}

pub open spec fn dark_red() -> Color {
    Color { a: None, r: 0xaa, g: 0x22, b: 0x22 }
}

pub open spec fn purple() -> Color {
    Color { a: None, r: 0xac, g: 0x21, b: 0xc4 }
}

pub open spec fn or_color(c: Option<Color>, d: Color) -> Option<Color> {
    match c {
        Some(c) => Some(c),
        None => Some(d),
    }
}

/// The error of the first color setting that is not valid, in the order
/// accent, urgent foreground, background and accent, foreground, background,
/// focused foreground, background and accent.
pub open spec fn first_style_error(env: StyleEnv) -> Option<ColorParseError> {
    let all = seq![
        env_color(env.accent),
        env_color(env.urgent_foreground),
        env_color(env.urgent_background),
        env_color(env.urgent_accent),
        env_color(env.foreground),
        env_color(env.background),
        env_color(env.focused_foreground),
        env_color(env.focused_background),
        env_color(env.focused_accent),
    ];
    first_error(all, 0)
}

pub open spec fn first_error(s: Seq<Result<Option<Color>, ColorParseError>>, i: int) -> Option<
    ColorParseError,
>
    decreases s.len() - i,
{
    if 0 <= i < s.len() {
        match s[i] {
            Err(e) => Some(e),
            Ok(_) => first_error(s, i + 1),
        }
    } else {
        None
    }
}

/// Whether every color setting of `env` is unset, empty or a valid color.
pub open spec fn style_env_valid(env: StyleEnv) -> bool {
    &&& env_color(env.accent) is Ok
    &&& env_color(env.urgent_foreground) is Ok
    &&& env_color(env.urgent_background) is Ok
    &&& env_color(env.urgent_accent) is Ok
    &&& env_color(env.foreground) is Ok
    &&& env_color(env.background) is Ok
    &&& env_color(env.focused_foreground) is Ok
    &&& env_color(env.focused_background) is Ok
    &&& env_color(env.focused_accent) is Ok
}

/// The draw settings that `env` gives, where its colors are valid.
pub open spec fn draw_settings_from(env: StyleEnv, d: DrawSettings) -> bool {
    &&& string_opt_view(d.prefix) == string_opt_view(env.ws_start)
    &&& string_opt_view(d.postfix) == string_opt_view(env.ws_end)
    &&& d.separator@ == match env.ws_separator {
        Some(s) => s@,
        None => "\u{250a}"@,
    }
    &&& d.node_draw_mode == Formatter {
        foreground: None,
        background: None,
        underline: None,
        overline: None,
        highlight: false,
    }
    &&& d.focused_node_draw_mode == Formatter {
        foreground: None,
        background: None,
        underline: None,
        overline: or_color(env_color(env.accent)->Ok_0, white()),
        highlight: false,
    }
    &&& d.urgent_node_draw_mode == Formatter {
        foreground: env_color(env.urgent_foreground)->Ok_0,
        background: or_color(env_color(env.urgent_background)->Ok_0, dark_red()),
        underline: None,
        overline: env_color(env.urgent_accent)->Ok_0,
        highlight: false,
    }
    &&& d.workspace_draw_mode == Formatter {
        foreground: env_color(env.foreground)->Ok_0,
        background: env_color(env.background)->Ok_0,
        underline: None,
        overline: None,
        highlight: false,
    }
    &&& d.focused_workspace_draw_mode == Formatter {
        foreground: or_color(env_color(env.focused_foreground)->Ok_0, white()),
        background: env_color(env.focused_background)->Ok_0,
        underline: or_color(env_color(env.focused_accent)->Ok_0, purple()),
        overline: None,
        highlight: false,
    }
}

pub open spec fn string_opt_view(o: Option<String>) -> Option<Seq<char>> {
    match o {
        Some(s) => Some(s@),
        None => None,
    }
}

/// Reads one color setting.
pub fn col_env(v: &Option<String>) -> (r: Result<Option<Color>, ColorParseError>)
    ensures
        r == env_color(*v),
{
    match v {
        None => Ok(None),
        Some(s) => {
            if s.as_str().unicode_len() == 0 {
                Ok(None)
            } else {
                match Color::try_from(s.as_str()) {
                    Ok(c) => Ok(Some(c)),
                    Err(e) => Err(e),
                }
            }
        },
    }
}

fn color_or(c: Option<Color>, d: Color) -> (r: Option<Color>)
    ensures
        r == or_color(c, d),
{
    match c {
        Some(c) => Some(c),
        None => Some(d),
    }
}

fn clone_opt(o: &Option<String>) -> (r: Option<String>)
    ensures
        string_opt_view(r) == string_opt_view(*o),
{
    match o {
        Some(s) => Some(s.clone()),
        None => None,
    }
}

/// The settings drawn from the environment's style values, with no icon
/// rules. Fails when a color setting is neither empty nor a valid color.
pub fn get_default_settings(env: &StyleEnv) -> (r: Result<Settings, ColorParseError>)
    ensures
        r is Ok <==> style_env_valid(*env),
        r is Err ==> Some(r->Err_0) == first_style_error(*env),
        r is Ok ==> string_opt_view(r->Ok_0.monitor) == string_opt_view(env.monitor)
            && r->Ok_0.icons.icons@.len() == 0 && r->Ok_0.icons.tick_rate is None
            && draw_settings_from(*env, r->Ok_0.draw_settings),
{
    let white = Color { a: None, r: 0xff, g: 0xff, b: 0xff };
    proof {
        reveal_with_fuel(first_error, 10);
    }
    let accent = match col_env(&env.accent) {
        Ok(c) => c,
        Err(e) => {
            return Err(e);
        },
    };
    let urgent_foreground = match col_env(&env.urgent_foreground) {
        Ok(c) => c,
        Err(e) => {
            return Err(e);
        },
    };
    let urgent_background = match col_env(&env.urgent_background) {
        Ok(c) => c,
        Err(e) => {
            return Err(e);
        },
    };
    let urgent_accent = match col_env(&env.urgent_accent) {
        Ok(c) => c,
        Err(e) => {
            return Err(e);
        },
    };
    let foreground = match col_env(&env.foreground) {
        Ok(c) => c,
        Err(e) => {
            return Err(e);
        },
    };
    let background = match col_env(&env.background) {
        Ok(c) => c,
        Err(e) => {
            return Err(e);
        },
    };
    let focused_foreground = match col_env(&env.focused_foreground) {
        Ok(c) => c,
        Err(e) => {
            return Err(e);
        },
    };
    let focused_background = match col_env(&env.focused_background) {
        Ok(c) => c,
        Err(e) => {
            return Err(e);
        },
    };
    let focused_accent = match col_env(&env.focused_accent) {
        Ok(c) => c,
        Err(e) => {
            return Err(e);
        },
    };
    let separator = match &env.ws_separator {
        Some(s) => s.clone(),
        None => String::from_str("\u{250a}"),
    };
    Ok(
        Settings {
            monitor: clone_opt(&env.monitor),
            icons: Icons { icons: Vec::new(), tick_rate: None },
            draw_settings: DrawSettings {
                prefix: clone_opt(&env.ws_start),
                postfix: clone_opt(&env.ws_end),
                separator,
                node_draw_mode: Formatter {
                    foreground: None,
                    background: None,
                    underline: None,
                    overline: None,
                    highlight: false,
                },
                focused_node_draw_mode: Formatter {
                    foreground: None,
                    background: None,
                    underline: None,
                    overline: color_or(accent, white),
                    highlight: false,
                },
                urgent_node_draw_mode: Formatter {
                    foreground: urgent_foreground,
                    background: color_or(urgent_background, Color { a: None, r: 0xaa, g: 0x22, b: 0x22 }),
                    underline: None,
                    overline: urgent_accent,
                    highlight: false,
                },
                workspace_draw_mode: Formatter {
                    foreground,
                    background,
                    underline: None,
                    overline: None,
                    highlight: false,
                },
                focused_workspace_draw_mode: Formatter {
                    foreground: color_or(focused_foreground, white),
                    background: focused_background,
                    underline: color_or(focused_accent, Color { a: None, r: 0xac, g: 0x21, b: 0xc4 }),
                    overline: None,
                    highlight: false,
                },
            },
        },
    )
}

} // verus!
