use context_menu::{
    from_config, from_menu_item, kind_from_name, kind_name, theme_from_name, theme_name, to_config, to_menu_item,
    ColorScheme, Config, ConfigValue, Corner, Data, ElectronMenuItem, FontValue, FontWeight, MenuFont,
    MenuItemType, MenuSize, Theme, ThemeColor,
};

fn node(itype: &str, label: &str, id: &str) -> ElectronMenuItem {
    ElectronMenuItem {
        itype: itype.to_string(),
        label: label.to_string(),
        accelerator: "Ctrl+K".to_string(),
        enabled: false,
        checked: true,
        submenu: Vec::new(),
        id: id.to_string(),
        name: "group".to_string(),
        value: "val".to_string(),
    }
}

fn scheme(base: u32) -> ColorScheme {
    ColorScheme {
        color: base,
        accelerator: base + 1,
        border: base + 2,
        separator: base + 3,
        disabled: base + 4,
        background_color: base + 5,
        hover_background_color: base + 6,
    }
}

fn config_with(theme: Theme, corner: Corner, dark: FontWeight, light: FontWeight) -> Config {
    Config {
        theme,
        size: MenuSize {
            border_size: 0,
            vertical_padding: 0,
            horizontal_padding: 7,
            item_vertical_padding: 8,
            item_horizontal_padding: 20,
            submenu_offset: -3,
        },
        color: ThemeColor { dark: scheme(0x202020), light: scheme(0xf0f0f0) },
        corner,
        font: MenuFont {
            font_family: "Segoe UI".to_string(),
            dark_font_size_bits: 12.0f32.to_bits(),
            dark_font_weight: dark,
            light_font_size_bits: 12.0f32.to_bits(),
            light_font_weight: light,
        },
    }
}

fn same_config(a: &Config, b: &Config) -> bool {
    a.theme == b.theme
        && a.size == b.size
        && a.color == b.color
        && a.corner == b.corner
        && a.font.font_family == b.font.font_family
        && a.font.dark_font_size_bits == b.font.dark_font_size_bits
        && a.font.dark_font_weight == b.font.dark_font_weight
        && a.font.light_font_size_bits == b.font.light_font_size_bits
        && a.font.light_font_weight == b.font.light_font_weight
}

fn same_value(a: &ConfigValue, b: &ConfigValue) -> bool {
    a.theme == b.theme
        && a.size == b.size
        && a.color == b.color
        && a.corner == b.corner
        && a.font.font_family == b.font.font_family
        && a.font.dark_font_size_bits == b.font.dark_font_size_bits
        && a.font.dark_font_weight == b.font.dark_font_weight
        && a.font.light_font_size_bits == b.font.light_font_size_bits
        && a.font.light_font_weight == b.font.light_font_weight
}

#[test]
fn config_round_trip_keeps_value() {
    let weights = [FontWeight::Thin, FontWeight::Light, FontWeight::Normal, FontWeight::Medium, FontWeight::Bold];
    for theme in [Theme::Dark, Theme::Light, Theme::System] {
        for corner in [Corner::Round, Corner::DoNotRound] {
            for w in weights {
                let c = config_with(theme, corner, w, FontWeight::Normal);
                let v = from_config(&c);
                let back = to_config(&v);
                assert!(same_config(&back, &c));
                assert!(same_value(&from_config(&back), &v));
            }
        }
    }
}

#[test]
fn config_value_names() {
    let v = from_config(&config_with(Theme::Dark, Corner::Round, FontWeight::Medium, FontWeight::Thin));
    assert_eq!(v.theme, "dark");
    assert_eq!(v.corner, "round");
    assert_eq!(v.font.dark_font_weight, "Medium");
    assert_eq!(v.font.light_font_weight, "Thin");
    assert_eq!(v.size.horizontal_padding, 7);
    assert_eq!(v.color.light.hover_background_color, 0xf0f0f0 + 6);
    assert_eq!(f32::from_bits(v.font.dark_font_size_bits), 12.0);
    let v = from_config(&config_with(Theme::System, Corner::DoNotRound, FontWeight::Normal, FontWeight::Bold));
    assert_eq!(v.theme, "system");
    assert_eq!(v.corner, "square");
    assert_eq!(v.font.light_font_weight, "Bold");
}

#[test]
fn unknown_names_take_defaults() {
    let v = ConfigValue {
        theme: "sepia".to_string(),
        size: config_with(Theme::Dark, Corner::Round, FontWeight::Bold, FontWeight::Bold).size,
        color: config_with(Theme::Dark, Corner::Round, FontWeight::Bold, FontWeight::Bold).color,
        corner: "Round".to_string(),
        font: FontValue {
            font_family: "Mono".to_string(),
            dark_font_size_bits: 1,
            dark_font_weight: "heavy".to_string(),
            light_font_size_bits: 2,
            light_font_weight: "Light".to_string(),
        },
    };
    let c = to_config(&v);
    assert_eq!(c.theme, Theme::System);
    assert_eq!(c.corner, Corner::DoNotRound);
    assert_eq!(c.font.dark_font_weight, FontWeight::Normal);
    assert_eq!(c.font.light_font_weight, FontWeight::Light);
    assert_eq!(c.font.font_family, "Mono");
    assert_eq!(c.font.light_font_size_bits, 2);
}

#[test]
fn theme_names() {
    assert_eq!(theme_from_name("dark"), Theme::Dark);
    assert_eq!(theme_from_name("light"), Theme::Light);
    assert_eq!(theme_from_name("system"), Theme::System);
    assert_eq!(theme_from_name("Dark"), Theme::System);
    assert_eq!(theme_from_name(""), Theme::System);
    assert_eq!(theme_name(Theme::Light), "light");
    assert_eq!(theme_name(Theme::Dark), "dark");
}

#[test]
fn kind_names() {
    assert_eq!(kind_from_name("normal"), Some(MenuItemType::Text));
    assert_eq!(kind_from_name("separator"), Some(MenuItemType::Separator));
    assert_eq!(kind_from_name("submenu"), Some(MenuItemType::Submenu));
    assert_eq!(kind_from_name("checkbox"), Some(MenuItemType::Checkbox));
    assert_eq!(kind_from_name("radio"), Some(MenuItemType::Radio));
    assert_eq!(kind_from_name("text"), None);
    for k in [
        MenuItemType::Text,
        MenuItemType::Separator,
        MenuItemType::Submenu,
        MenuItemType::Checkbox,
        MenuItemType::Radio,
    ] {
        assert_eq!(kind_from_name(&kind_name(k)), Some(k));
    }
}

#[test]
fn added_entries_by_kind() {
    let text = to_menu_item(&node("normal", "T", "t"), 3);
    assert_eq!(text.menu_item_type, MenuItemType::Text);
    assert_eq!(text.accelerator, "Ctrl+K");
    assert_eq!(text.name, "");
    assert!(!text.checked);
    assert!(text.disabled);
    assert_eq!(text.uuid, 3);
    assert_eq!(text.value, "val");

    let sep = to_menu_item(&node("separator", "S", "s"), 4);
    assert_eq!(sep.menu_item_type, MenuItemType::Separator);
    assert_eq!(sep.label, "");
    assert_eq!(sep.id, "");
    assert!(!sep.disabled);

    let sub = to_menu_item(&node("submenu", "M", "m"), 5);
    assert_eq!(sub.menu_item_type, MenuItemType::Text);
    assert!(sub.submenu.is_none());

    let unknown = to_menu_item(&node("widget", "W", "w"), 6);
    assert_eq!(unknown.menu_item_type, MenuItemType::Text);
    assert_eq!(unknown.label, "W");

    let check = to_menu_item(&node("checkbox", "C", "c"), 7);
    assert_eq!(check.menu_item_type, MenuItemType::Checkbox);
    assert!(check.checked);
    assert_eq!(check.name, "");

    let radio = to_menu_item(&node("radio", "R", "r"), 8);
    assert_eq!(radio.menu_item_type, MenuItemType::Radio);
    assert!(radio.checked);
    assert_eq!(radio.name, "group");
}

#[test]
fn selected_item_fields() {
    let item = to_menu_item(&node("radio", "R", "r"), 8);
    let s = from_menu_item(&item);
    assert_eq!(s.id, "r");
    assert_eq!(s.label, "R");
    assert_eq!(s.value, "val");
    assert_eq!(s.name, "group");
    assert!(s.checked);
}

#[test]
fn data_counter() {
    let mut d = Data::new();
    assert_eq!(d, Data { id: 0, id1: 0, data: 0 });
    assert_eq!(d.inc().data, 1);
    d.inc();
    assert_eq!(d.dec().data, 1);
    d.dec();
    d.dec();
    assert_eq!(d.data, -1);
    assert_eq!(d.id, 0);
    assert_eq!(d.id1, 0);
}
