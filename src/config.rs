use vstd::prelude::*;

verus! {

/// Color theme of a menu.
#[derive(Clone, Copy, Debug, PartialEq, Eq, Structural)]
pub enum Theme {
    Dark,
    Light,
    System,
}

/// Corner style of a menu window.
#[derive(Clone, Copy, Debug, PartialEq, Eq, Structural)]
pub enum Corner {
    Round,
    DoNotRound,
}

/// Weight of the font a menu is drawn with.
#[derive(Clone, Copy, Debug, PartialEq, Eq, Structural)]
pub enum FontWeight {
    Thin,
    Light,
    Normal,
    Medium,
    Bold,
}

/// Border, padding and offset sizes of a menu, in pixels.
#[derive(Clone, Copy, Debug, PartialEq, Eq, Structural)]
pub struct MenuSize {
    pub border_size: i32,
    pub vertical_padding: i32,
    pub horizontal_padding: i32,
    pub item_vertical_padding: i32,
    pub item_horizontal_padding: i32,
    pub submenu_offset: i32,
}

/// Colors of one theme, each a packed integer color value.
#[derive(Clone, Copy, Debug, PartialEq, Eq, Structural)]
pub struct ColorScheme {
    pub color: u32,
    pub accelerator: u32,
    pub border: u32,
    pub separator: u32,
    pub disabled: u32,
    pub background_color: u32,
    pub hover_background_color: u32,
}

/// The dark and the light color scheme.
#[derive(Clone, Copy, Debug, PartialEq, Eq, Structural)]
pub struct ThemeColor {
    pub dark: ColorScheme,
    pub light: ColorScheme,
}

/// Font settings. A font size is carried as the bit pattern of an IEEE-754
/// single-precision number, so that it passes through unchanged.
#[derive(Clone, Debug)]
pub struct MenuFont {
    pub font_family: String,
    pub dark_font_size_bits: u32,
    pub dark_font_weight: FontWeight,
    pub light_font_size_bits: u32,
    pub light_font_weight: FontWeight,
}

/// Typed menu configuration, as the native menu library takes it.
#[derive(Clone, Debug)]
pub struct Config {
    pub theme: Theme,
    pub size: MenuSize,
    pub color: ThemeColor,
    pub corner: Corner,
    pub font: MenuFont,
}

/// Font settings as the host passes them: weights by name.
#[derive(Clone, Debug)]
pub struct FontValue {
    pub font_family: String,
    pub dark_font_size_bits: u32,
    pub dark_font_weight: String,
    pub light_font_size_bits: u32,
    pub light_font_weight: String,
}

/// Menu configuration as the host passes it: theme, corner and weights by name.
#[derive(Clone, Debug)]
pub struct ConfigValue {
    pub theme: String,
    pub size: MenuSize,
    pub color: ThemeColor,
    pub corner: String,
    pub font: FontValue,
}

/// Mathematical form of a `Config`.
pub struct ConfigView {
    pub theme: Theme,
    pub size: MenuSize,
    pub color: ThemeColor,
    pub corner: Corner,
    pub font_family: Seq<char>,
    pub dark_font_size_bits: u32,
    pub dark_font_weight: FontWeight,
    pub light_font_size_bits: u32,
    pub light_font_weight: FontWeight,
}

/// Mathematical form of a `ConfigValue`.
pub struct ConfigValueView {
    pub theme: Seq<char>,
    pub size: MenuSize,
    pub color: ThemeColor,
    pub corner: Seq<char>,
    pub font_family: Seq<char>,
    pub dark_font_size_bits: u32,
    pub dark_font_weight: Seq<char>,
    pub light_font_size_bits: u32,
    pub light_font_weight: Seq<char>,
}

impl View for Config {
    type V = ConfigView;

    open spec fn view(&self) -> ConfigView {
        ConfigView {
            theme: self.theme,
            size: self.size,
            color: self.color,
            corner: self.corner,
            font_family: self.font.font_family@,
            dark_font_size_bits: self.font.dark_font_size_bits,
            dark_font_weight: self.font.dark_font_weight,
            light_font_size_bits: self.font.light_font_size_bits,
            light_font_weight: self.font.light_font_weight,
        }
    }
}

impl View for ConfigValue {
    type V = ConfigValueView;

    open spec fn view(&self) -> ConfigValueView {
        ConfigValueView {
            theme: self.theme@,
            size: self.size,
            color: self.color,
            corner: self.corner@,
            font_family: self.font.font_family@,
            dark_font_size_bits: self.font.dark_font_size_bits,
            dark_font_weight: self.font.dark_font_weight@,
            light_font_size_bits: self.font.light_font_size_bits,
            light_font_weight: self.font.light_font_weight@,
        }
    }
}

/// The theme a name selects: "dark", "light", and "system" or any other name.
pub open spec fn theme_of_name(s: Seq<char>) -> Theme {
    if s == "dark"@ {
        Theme::Dark
    } else if s == "light"@ {
        Theme::Light
    } else {
        Theme::System
    }
}

pub open spec fn theme_name_of(t: Theme) -> Seq<char> {
    match t {
        Theme::Dark => "dark"@,
        Theme::Light => "light"@,
        Theme::System => "system"@,
    }
}

/// "round" selects round corners; any other name square ones.
pub open spec fn corner_of_name(s: Seq<char>) -> Corner {
    if s == "round"@ {
        Corner::Round
    } else {
        Corner::DoNotRound
    }
}

pub open spec fn corner_name_of(c: Corner) -> Seq<char> {
    match c {
        Corner::Round => "round"@,
        Corner::DoNotRound => "square"@,
    }
}

/// The weight a name selects; an unknown name selects `Normal`.
pub open spec fn weight_of_name(s: Seq<char>) -> FontWeight {
    if s == "Thin"@ {
        FontWeight::Thin
    } else if s == "Light"@ {
        FontWeight::Light
    } else if s == "Medium"@ {
        FontWeight::Medium
    } else if s == "Bold"@ {
        FontWeight::Bold
    } else {
        FontWeight::Normal
    }
}

pub open spec fn weight_name_of(w: FontWeight) -> Seq<char> {
    match w {
        FontWeight::Thin => "Thin"@,
        FontWeight::Light => "Light"@,
        FontWeight::Normal => "Normal"@,
        FontWeight::Medium => "Medium"@,
        FontWeight::Bold => "Bold"@,
    }
}

/// The typed configuration that a host value describes.
pub open spec fn config_of_value(v: ConfigValueView) -> ConfigView {
    ConfigView {
        theme: theme_of_name(v.theme),
        size: v.size,
        color: v.color,
        corner: corner_of_name(v.corner),
        font_family: v.font_family,
        dark_font_size_bits: v.dark_font_size_bits,
        dark_font_weight: weight_of_name(v.dark_font_weight),
        light_font_size_bits: v.light_font_size_bits,
        light_font_weight: weight_of_name(v.light_font_weight),
    }
}

/// The host value that describes a typed configuration.
pub open spec fn value_of_config(c: ConfigView) -> ConfigValueView {
    ConfigValueView {
        theme: theme_name_of(c.theme),
        size: c.size,
        color: c.color,
        corner: corner_name_of(c.corner),
        font_family: c.font_family,
        dark_font_size_bits: c.dark_font_size_bits,
        dark_font_weight: weight_name_of(c.dark_font_weight),
        light_font_size_bits: c.light_font_size_bits,
        light_font_weight: weight_name_of(c.light_font_weight),
    }
}

/// Whether two strings hold the same characters.
pub fn same_text(a: &str, b: &str) -> (r: bool)
    ensures
        r == (a@ == b@),
{
    let a_owned = a.to_owned();
    let b_owned = b.to_owned();
    a_owned == b_owned
}

/// The theme that `name` selects; an unknown name selects `System`.
pub fn theme_from_name(name: &str) -> (t: Theme)
    ensures
        t == theme_of_name(name@),
{
    if same_text(name, "dark") {
        Theme::Dark
    } else if same_text(name, "light") {
        Theme::Light
    } else {
        Theme::System
    }
}

pub fn theme_name(t: Theme) -> (s: String)
    ensures
        s@ == theme_name_of(t),
{
    match t {
        Theme::Dark => "dark".to_owned(),
        Theme::Light => "light".to_owned(),
        Theme::System => "system".to_owned(),
    }
}

fn corner_from_name(name: &str) -> (c: Corner)
    ensures
        c == corner_of_name(name@),
{
    if same_text(name, "round") {
        Corner::Round
    } else {
        Corner::DoNotRound
    }
}

fn corner_name(c: Corner) -> (s: String)
    ensures
        s@ == corner_name_of(c),
{
    match c {
        Corner::Round => "round".to_owned(),
        Corner::DoNotRound => "square".to_owned(),
    }
}

fn weight_from_name(name: &str) -> (w: FontWeight)
    ensures
        w == weight_of_name(name@),
{
    if same_text(name, "Thin") {
        FontWeight::Thin
    } else if same_text(name, "Light") {
        FontWeight::Light
    } else if same_text(name, "Medium") {
        FontWeight::Medium
    } else if same_text(name, "Bold") {
        FontWeight::Bold
    } else {
        FontWeight::Normal
    }
}

fn weight_name(w: FontWeight) -> (s: String)
    ensures
        s@ == weight_name_of(w),
{
    match w {
        FontWeight::Thin => "Thin".to_owned(),
        FontWeight::Light => "Light".to_owned(),
        FontWeight::Normal => "Normal".to_owned(),
        FontWeight::Medium => "Medium".to_owned(),
        FontWeight::Bold => "Bold".to_owned(),
    }
}

/// Reads a host configuration value into a typed configuration.
pub fn to_config(value: &ConfigValue) -> (c: Config)
    ensures
        c@ == config_of_value(value@),
{
    Config {
        theme: theme_from_name(value.theme.as_str()),
        size: value.size,
        color: value.color,
        corner: corner_from_name(value.corner.as_str()),
        font: MenuFont {
            font_family: value.font.font_family.clone(),
            dark_font_size_bits: value.font.dark_font_size_bits,
            dark_font_weight: weight_from_name(value.font.dark_font_weight.as_str()),
            light_font_size_bits: value.font.light_font_size_bits,
            light_font_weight: weight_from_name(value.font.light_font_weight.as_str()),
        },
    }
}

/// Writes a typed configuration as a host configuration value.
pub fn from_config(config: &Config) -> (v: ConfigValue)
    ensures
        v@ == value_of_config(config@),
{
    ConfigValue {
        theme: theme_name(config.theme),
        size: config.size,
        color: config.color,
        corner: corner_name(config.corner),
        font: FontValue {
            font_family: config.font.font_family.clone(),
            dark_font_size_bits: config.font.dark_font_size_bits,
            dark_font_weight: weight_name(config.font.dark_font_weight),
            light_font_size_bits: config.font.light_font_size_bits,
            light_font_weight: weight_name(config.font.light_font_weight),
        },
    }
}

proof fn lemma_names_distinct()
    ensures
        "light"@ != "dark"@,
        "system"@ != "dark"@,
        "system"@ != "light"@,
        "square"@ != "round"@,
        "Normal"@ != "Thin"@,
        "Normal"@ != "Light"@,
        "Normal"@ != "Medium"@,
        "Normal"@ != "Bold"@,
        "Light"@ != "Thin"@,
        "Medium"@ != "Thin"@,
        "Medium"@ != "Light"@,
        "Bold"@ != "Thin"@,
        "Bold"@ != "Light"@,
        "Bold"@ != "Medium"@,
{
    reveal_strlit("dark");
    reveal_strlit("light");
    reveal_strlit("system");
    reveal_strlit("round");
    reveal_strlit("square");
    reveal_strlit("Thin");
    reveal_strlit("Light");
    reveal_strlit("Normal");
    reveal_strlit("Medium");
    reveal_strlit("Bold");
    assert("light"@.len() != "dark"@.len());
    assert("system"@.len() != "dark"@.len());
    assert("system"@.len() != "light"@.len());
    assert("square"@[0] != "round"@[0]);
    assert("Normal"@.len() != "Thin"@.len());
    assert("Normal"@.len() != "Light"@.len());
    assert("Normal"@[0] != "Medium"@[0]);
    assert("Normal"@.len() != "Bold"@.len());
    assert("Light"@.len() != "Thin"@.len());
    assert("Medium"@.len() != "Thin"@.len());
    assert("Medium"@.len() != "Light"@.len());
    assert("Bold"@[0] != "Thin"@[0]);
    assert("Bold"@.len() != "Light"@.len());
    assert("Bold"@.len() != "Medium"@.len());
}

/// Round trip through the host form: a typed configuration written as a host
/// value and read back is the same configuration, and writing it once more
/// gives the same host value.
pub proof fn lemma_config_round_trip(c: ConfigView)
    ensures
        config_of_value(value_of_config(c)) == c,
        value_of_config(config_of_value(value_of_config(c))) == value_of_config(c),
{
    lemma_names_distinct();
}

} // verus!
