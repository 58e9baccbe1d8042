pub mod compiler;
pub mod config;
pub mod data;
pub mod item;
pub mod operations;
pub mod registry;

pub use compiler::{build, build_from_template, build_from_template_with_config, build_from_template_with_theme};
pub use config::{
    from_config, theme_from_name, theme_name, to_config, ColorScheme, Config, ConfigValue, Corner, FontValue,
    FontWeight, MenuFont, MenuSize, Theme, ThemeColor,
};
pub use data::Data;
pub use item::{
    from_menu_item, kind_from_name, kind_name, to_menu_item, ElectronMenuItem, MenuEntry, MenuItem, MenuItemType,
    MenuType, SelectedItem,
};
pub use operations::{
    append, get_menu_item_by_id, insert, items, popup, popup_result, remove, remove_at, set_theme, PopupRequest,
};
pub use registry::{Menu, MenuError, MenuRegistry};
