use context_menu::{
    append, build, build_from_template, build_from_template_with_config, build_from_template_with_theme,
    get_menu_item_by_id, insert, items, popup, popup_result, remove, remove_at, set_theme, to_menu_item,
    ColorScheme, Config, ConfigValue, Corner, ElectronMenuItem, FontValue, FontWeight, MenuEntry, MenuError,
    MenuFont, MenuItemType, MenuRegistry, MenuSize, MenuType, PopupRequest, Theme, ThemeColor,
};

fn node(itype: &str, label: &str, id: &str) -> ElectronMenuItem {
    ElectronMenuItem {
        itype: itype.to_string(),
        label: label.to_string(),
        accelerator: String::new(),
        enabled: true,
        checked: false,
        submenu: Vec::new(),
        id: id.to_string(),
        name: String::new(),
        value: String::new(),
    }
}

fn scenario_template() -> Vec<ElectronMenuItem> {
    let mut beta = node("checkbox", "Beta", "beta");
    beta.checked = true;
    let mut more = node("submenu", "More", "");
    more.submenu = vec![beta];
    vec![node("normal", "Open", "open"), node("separator", "", ""), more]
}

fn listing(reg: &MenuRegistry, handle: u64) -> Vec<MenuEntry> {
    match items(reg, handle) {
        Ok(es) => es,
        Err(e) => panic!("listing failed: {:?}", e),
    }
}

fn scheme(base: u32) -> ColorScheme {
    ColorScheme {
        color: base,
        accelerator: base + 1,
        border: base + 2,
        separator: base + 3,
        disabled: base + 4,
        background_color: base + 5,
        hover_background_color: base + 6,
    }
}

fn sample_config() -> Config {
    Config {
        theme: Theme::Dark,
        size: MenuSize {
            border_size: 1,
            vertical_padding: 2,
            horizontal_padding: 3,
            item_vertical_padding: 8,
            item_horizontal_padding: 20,
            submenu_offset: -3,
        },
        color: ThemeColor { dark: scheme(100), light: scheme(200) },
        corner: Corner::DoNotRound,
        font: MenuFont {
            font_family: "Segoe UI".to_string(),
            dark_font_size_bits: 12.0f32.to_bits(),
            dark_font_weight: FontWeight::Medium,
            light_font_size_bits: 11.5f32.to_bits(),
            light_font_weight: FontWeight::Bold,
        },
    }
}

#[test]
fn scenario_open_separator_submenu() {
    let mut reg = MenuRegistry::new();
    let h = build_from_template(&mut reg, &scenario_template(), &sample_config()).unwrap();
    let es = listing(&reg, h);
    assert_eq!(es.len(), 3);
    assert_eq!(es[0].item.menu_item_type, MenuItemType::Text);
    assert_eq!(es[0].item.label, "Open");
    assert_eq!(es[0].item.id, "open");
    assert_eq!(es[1].item.menu_item_type, MenuItemType::Separator);
    assert_eq!(es[2].item.menu_item_type, MenuItemType::Submenu);
    assert_eq!(es[2].item.label, "More");
    assert_eq!(es[2].submenu.len(), 1);
    assert_eq!(es[2].submenu[0].item.id, "beta");
    assert_eq!(es[2].submenu[0].item.menu_item_type, MenuItemType::Checkbox);
    assert!(es[2].submenu[0].item.checked);
}

#[test]
fn listing_reproduces_fields_and_order() {
    let mut reg = MenuRegistry::new();
    let mut text = node("normal", "Copy", "copy");
    text.accelerator = "Ctrl+C".to_string();
    text.value = "v1".to_string();
    let mut radio = node("radio", "Small", "small");
    radio.name = "size".to_string();
    radio.checked = true;
    radio.enabled = false;
    let mut check_in_text = node("normal", "Plain", "plain");
    check_in_text.checked = true;
    let t = vec![text, radio, check_in_text];
    let h = build(&mut reg, &t, Theme::Light).unwrap();
    let es = listing(&reg, h);
    assert_eq!(es.len(), 3);
    assert_eq!(es[0].item.accelerator, "Ctrl+C");
    assert_eq!(es[0].item.value, "v1");
    assert!(!es[0].item.disabled);
    assert_eq!(es[1].item.menu_item_type, MenuItemType::Radio);
    assert_eq!(es[1].item.name, "size");
    assert!(es[1].item.checked);
    assert!(es[1].item.disabled);
    assert!(!es[2].item.checked);
    assert!(es.iter().all(|e| e.submenu.is_empty()));
}

#[test]
fn submenus_are_registered_before_their_parent() {
    let mut reg = MenuRegistry::new();
    let h = build(&mut reg, &scenario_template(), Theme::System).unwrap();
    assert_eq!(reg.len(), 2);
    assert_eq!(h, 2);
    let root = reg.get(h).unwrap();
    assert_eq!(root.menu_type, MenuType::Main);
    let sub = root.items[2].submenu.unwrap();
    assert_eq!(sub, 1);
    assert_eq!(reg.get(sub).unwrap().menu_type, MenuType::Submenu);
    assert_eq!(listing(&reg, sub)[0].item.id, "beta");
}

#[test]
fn handles_of_live_menus_differ() {
    let mut reg = MenuRegistry::new();
    let a = build(&mut reg, &scenario_template(), Theme::Dark).unwrap();
    let b = build(&mut reg, &scenario_template(), Theme::Dark).unwrap();
    let c = build(&mut reg, &Vec::new(), Theme::Dark).unwrap();
    assert_ne!(a, b);
    assert_ne!(b, c);
    assert_ne!(a, c);
    let sub_a = reg.get(a).unwrap().items[2].submenu.unwrap();
    let sub_b = reg.get(b).unwrap().items[2].submenu.unwrap();
    assert_ne!(sub_a, sub_b);
    assert_eq!(reg.len(), 5);
}

#[test]
fn unknown_type_is_refused_and_nothing_registered() {
    let mut reg = MenuRegistry::new();
    let mut more = node("submenu", "More", "");
    more.submenu = vec![node("normal", "A", "a"), node("bogus", "B", "b")];
    let t = vec![node("normal", "Open", "open"), more];
    assert_eq!(build(&mut reg, &t, Theme::Dark), Err(MenuError::InvalidArgument));
    assert_eq!(reg.len(), 0);
}

#[test]
fn empty_template_builds_an_empty_menu() {
    let mut reg = MenuRegistry::new();
    let h = build(&mut reg, &Vec::new(), Theme::Light).unwrap();
    assert!(listing(&reg, h).is_empty());
}

#[test]
fn theme_by_name_selects_theme() {
    let mut reg = MenuRegistry::new();
    let d = build_from_template_with_theme(&mut reg, &scenario_template(), "dark").unwrap();
    let l = build_from_template_with_theme(&mut reg, &scenario_template(), "light").unwrap();
    let s = build_from_template_with_theme(&mut reg, &scenario_template(), "purple").unwrap();
    assert_eq!(reg.get(d).unwrap().theme, Theme::Dark);
    assert_eq!(reg.get(l).unwrap().theme, Theme::Light);
    assert_eq!(reg.get(s).unwrap().theme, Theme::System);
    let sub = reg.get(d).unwrap().items[2].submenu.unwrap();
    assert_eq!(reg.get(sub).unwrap().theme, Theme::Dark);
}

#[test]
fn config_value_selects_theme() {
    let mut reg = MenuRegistry::new();
    let value = ConfigValue {
        theme: "light".to_string(),
        size: sample_config().size,
        color: sample_config().color,
        corner: "round".to_string(),
        font: FontValue {
            font_family: "Noto".to_string(),
            dark_font_size_bits: 0,
            dark_font_weight: "Thin".to_string(),
            light_font_size_bits: 0,
            light_font_weight: "Thin".to_string(),
        },
    };
    let h = build_from_template_with_config(&mut reg, &scenario_template(), &value).unwrap();
    assert_eq!(reg.get(h).unwrap().theme, Theme::Light);
}

#[test]
fn default_config_theme_is_used() {
    let mut reg = MenuRegistry::new();
    let h = build_from_template(&mut reg, &scenario_template(), &sample_config()).unwrap();
    assert_eq!(reg.get(h).unwrap().theme, Theme::Dark);
}

#[test]
fn popup_on_menu_without_enabled_items_dismissed_is_empty() {
    let mut reg = MenuRegistry::new();
    let mut a = node("normal", "A", "a");
    a.enabled = false;
    let mut b = node("checkbox", "B", "b");
    b.enabled = false;
    let h = build(&mut reg, &vec![a, b], Theme::Light).unwrap();
    let request = popup(&reg, h, 100, 200).unwrap();
    assert_eq!(request, PopupRequest { handle: h, x: 100, y: 200 });
    assert!(matches!(popup_result(&reg, &request, None), Ok(None)));
}

#[test]
fn popup_unknown_handle_is_not_found() {
    let reg = MenuRegistry::new();
    assert_eq!(popup(&reg, 7, 0, 0), Err(MenuError::NotFound));
}

#[test]
fn popups_on_two_menus_resolve_independently() {
    let mut reg = MenuRegistry::new();
    let a = build(&mut reg, &vec![node("normal", "A", "a")], Theme::Light).unwrap();
    let b = build(&mut reg, &vec![node("normal", "B", "b")], Theme::Light).unwrap();
    let ra = popup(&reg, a, 1, 2).unwrap();
    let rb = popup(&reg, b, 3, 4).unwrap();
    assert_ne!(ra.handle, rb.handle);
    let chosen_b = reg.get(b).unwrap().items[0].uuid;
    let sb = popup_result(&reg, &rb, Some(chosen_b)).unwrap().unwrap();
    assert_eq!(sb.id, "b");
    assert!(matches!(popup_result(&reg, &ra, None), Ok(None)));
    let chosen_a = reg.get(a).unwrap().items[0].uuid;
    assert_eq!(popup_result(&reg, &ra, Some(chosen_a)).unwrap().unwrap().id, "a");
}

#[test]
fn selection_reports_chosen_fields() {
    let mut reg = MenuRegistry::new();
    let mut r = node("radio", "Large", "large");
    r.name = "size".to_string();
    r.value = "L".to_string();
    r.checked = true;
    let h = build(&mut reg, &vec![node("normal", "Small", "small"), r], Theme::Light).unwrap();
    let request = popup(&reg, h, 0, 0).unwrap();
    let chosen = reg.get(h).unwrap().items[1].uuid;
    let s = popup_result(&reg, &request, Some(chosen)).unwrap().unwrap();
    assert_eq!(s.id, "large");
    assert_eq!(s.label, "Large");
    assert_eq!(s.value, "L");
    assert_eq!(s.name, "size");
    assert!(s.checked);
}

#[test]
fn selection_in_a_nested_menu_is_found() {
    let mut reg = MenuRegistry::new();
    let h = build(&mut reg, &scenario_template(), Theme::Light).unwrap();
    let request = popup(&reg, h, 5, 5).unwrap();
    let beta = listing(&reg, h)[2].submenu[0].item.uuid;
    let s = popup_result(&reg, &request, Some(beta)).unwrap().unwrap();
    assert_eq!(s.id, "beta");
    assert_eq!(s.label, "Beta");
    assert!(s.checked);
}

#[test]
fn selection_of_missing_or_submenu_entry_is_not_found() {
    let mut reg = MenuRegistry::new();
    let h = build(&mut reg, &scenario_template(), Theme::Light).unwrap();
    let request = popup(&reg, h, 0, 0).unwrap();
    let more = listing(&reg, h)[2].item.uuid;
    assert!(matches!(popup_result(&reg, &request, Some(more)), Err(MenuError::NotFound)));
    assert!(matches!(popup_result(&reg, &request, Some(60000)), Err(MenuError::NotFound)));
    let gone = PopupRequest { handle: 40, x: 0, y: 0 };
    assert!(matches!(popup_result(&reg, &gone, Some(more)), Err(MenuError::NotFound)));
    assert!(matches!(popup_result(&reg, &gone, None), Ok(None)));
}

#[test]
fn remove_then_lookup_by_id_finds_nothing() {
    let mut reg = MenuRegistry::new();
    let h = build(&mut reg, &scenario_template(), Theme::Light).unwrap();
    let open = get_menu_item_by_id(&reg, h, "open").unwrap().unwrap();
    assert_eq!(remove(&mut reg, h, &open), Ok(Some(0)));
    assert!(get_menu_item_by_id(&reg, h, "open").unwrap().is_none());
    assert_eq!(listing(&reg, h).len(), 2);
}

#[test]
fn lookup_by_id_is_first_match_on_one_level() {
    let mut reg = MenuRegistry::new();
    let t = vec![node("normal", "First", "dup"), node("normal", "Second", "dup"), {
        let mut s = node("submenu", "More", "more");
        s.submenu = vec![node("normal", "Inner", "inner")];
        s
    }];
    let h = build(&mut reg, &t, Theme::Light).unwrap();
    assert_eq!(get_menu_item_by_id(&reg, h, "dup").unwrap().unwrap().label, "First");
    assert!(get_menu_item_by_id(&reg, h, "inner").unwrap().is_none());
    assert!(get_menu_item_by_id(&reg, h, "missing").unwrap().is_none());
    assert_eq!(get_menu_item_by_id(&reg, 42, "dup").err(), Some(MenuError::NotFound));
}

#[test]
fn remove_of_absent_entry_changes_nothing() {
    let mut reg = MenuRegistry::new();
    let h = build(&mut reg, &scenario_template(), Theme::Light).unwrap();
    let stranger = to_menu_item(&node("normal", "X", "x"), 60000);
    assert_eq!(remove(&mut reg, h, &stranger), Ok(None));
    assert_eq!(listing(&reg, h).len(), 3);
}

#[test]
fn append_and_insert_place_entries() {
    let mut reg = MenuRegistry::new();
    let h = build(&mut reg, &vec![node("normal", "A", "a"), node("normal", "C", "c")], Theme::Light).unwrap();
    let d = append(&mut reg, h, to_menu_item(&node("normal", "D", "d"), 900)).unwrap();
    let b = insert(&mut reg, h, 1, to_menu_item(&node("normal", "B", "b"), 901)).unwrap();
    insert(&mut reg, h, 0, to_menu_item(&node("separator", "S", "s"), 902)).unwrap();
    assert_eq!(d, 2);
    assert_eq!(b, 3);
    let ids: Vec<String> = listing(&reg, h).iter().map(|e| e.item.id.clone()).collect();
    assert_eq!(ids, vec!["", "a", "b", "c", "d"]);
    assert_eq!(listing(&reg, h)[2].item.uuid, b);
}

#[test]
fn insert_past_end_is_invalid() {
    let mut reg = MenuRegistry::new();
    let h = build(&mut reg, &vec![node("normal", "A", "a")], Theme::Light).unwrap();
    let item = to_menu_item(&node("normal", "B", "b"), 5);
    assert_eq!(insert(&mut reg, h, 2, item), Err(MenuError::InvalidArgument));
    assert_eq!(listing(&reg, h).len(), 1);
    let item = to_menu_item(&node("normal", "B", "b"), 5);
    assert_eq!(insert(&mut reg, h, 1, item), Ok(1));
    assert_eq!(listing(&reg, h).len(), 2);
}

#[test]
fn entry_referring_to_a_menu_cannot_be_added() {
    let mut reg = MenuRegistry::new();
    let h = build(&mut reg, &scenario_template(), Theme::Light).unwrap();
    let sub_entry = reg.get(h).unwrap().items[2].duplicate();
    assert_eq!(append(&mut reg, h, sub_entry), Err(MenuError::InvalidArgument));
    assert_eq!(listing(&reg, h).len(), 3);
}

#[test]
fn remove_at_drops_position_or_nothing() {
    let mut reg = MenuRegistry::new();
    let h = build(&mut reg, &scenario_template(), Theme::Light).unwrap();
    remove_at(&mut reg, h, 1).unwrap();
    let es = listing(&reg, h);
    assert_eq!(es.len(), 2);
    assert_eq!(es[1].item.label, "More");
    remove_at(&mut reg, h, 5).unwrap();
    assert_eq!(listing(&reg, h).len(), 2);
}

#[test]
fn set_theme_changes_only_that_menu() {
    let mut reg = MenuRegistry::new();
    let a = build(&mut reg, &scenario_template(), Theme::Light).unwrap();
    let b = build(&mut reg, &scenario_template(), Theme::Light).unwrap();
    set_theme(&mut reg, a, "dark").unwrap();
    assert_eq!(reg.get(a).unwrap().theme, Theme::Dark);
    assert_eq!(reg.get(b).unwrap().theme, Theme::Light);
    assert_eq!(listing(&reg, a).len(), 3);
}

#[test]
fn unknown_handle_mutations_are_not_found_and_change_nothing() {
    let mut reg = MenuRegistry::new();
    let h = build(&mut reg, &scenario_template(), Theme::Light).unwrap();
    let before: Vec<String> = listing(&reg, h).iter().map(|e| e.item.label.clone()).collect();
    let bad = 99;
    let item = to_menu_item(&node("normal", "Z", "z"), 7);
    assert_eq!(append(&mut reg, bad, item.duplicate()), Err(MenuError::NotFound));
    assert_eq!(insert(&mut reg, bad, 0, item.duplicate()), Err(MenuError::NotFound));
    assert_eq!(remove(&mut reg, bad, &item), Err(MenuError::NotFound));
    assert_eq!(remove_at(&mut reg, bad, 0), Err(MenuError::NotFound));
    assert_eq!(set_theme(&mut reg, bad, "dark"), Err(MenuError::NotFound));
    assert_eq!(items(&reg, bad).err(), Some(MenuError::NotFound));
    assert_eq!(items(&reg, 0).err(), Some(MenuError::NotFound));
    let after: Vec<String> = listing(&reg, h).iter().map(|e| e.item.label.clone()).collect();
    assert_eq!(before, after);
    assert_eq!(reg.len(), 2);
    assert_eq!(reg.get(h).unwrap().theme, Theme::Light);
}

#[test]
fn submenu_node_keeps_its_accelerator() {
    let mut reg = MenuRegistry::new();
    let mut more = node("submenu", "More", "more");
    more.accelerator = "Alt+M".to_string();
    more.submenu = vec![node("normal", "Inner", "inner")];
    let h = build(&mut reg, &vec![more], Theme::Light).unwrap();
    let es = listing(&reg, h);
    assert_eq!(es[0].item.menu_item_type, MenuItemType::Submenu);
    assert_eq!(es[0].item.accelerator, "Alt+M");
}

#[test]
fn node_without_type_is_a_text_entry() {
    let mut reg = MenuRegistry::new();
    let h = build(&mut reg, &vec![node("", "Plain", "plain")], Theme::Light).unwrap();
    let es = listing(&reg, h);
    assert_eq!(es[0].item.menu_item_type, MenuItemType::Text);
    assert_eq!(es[0].item.label, "Plain");
}

#[test]
fn entry_identifiers_are_unique_across_menus() {
    let mut reg = MenuRegistry::new();
    let a = build(&mut reg, &scenario_template(), Theme::Light).unwrap();
    let b = build(&mut reg, &scenario_template(), Theme::Light).unwrap();
    let clash = reg.get(a).unwrap().items[0].uuid;
    let given = append(&mut reg, b, to_menu_item(&node("normal", "Extra", "extra"), clash)).unwrap();
    assert_ne!(given, clash);
    let mut seen = Vec::new();
    for h in 1..=reg.len() as u64 {
        for item in &reg.get(h).unwrap().items {
            assert!(!seen.contains(&item.uuid));
            seen.push(item.uuid);
        }
    }
    assert_eq!(seen.len(), 9);
}

#[test]
fn remove_by_reused_identifier_removes_the_right_entry() {
    let mut reg = MenuRegistry::new();
    let h = build(&mut reg, &vec![node("normal", "Keep", "keep")], Theme::Light).unwrap();
    let keep = reg.get(h).unwrap().items[0].uuid;
    let gone = append(&mut reg, h, to_menu_item(&node("normal", "Gone", "gone"), keep)).unwrap();
    let entry = get_menu_item_by_id(&reg, h, "gone").unwrap().unwrap();
    assert_eq!(entry.uuid, gone);
    assert_eq!(remove(&mut reg, h, &entry), Ok(Some(1)));
    assert!(get_menu_item_by_id(&reg, h, "gone").unwrap().is_none());
    assert_eq!(get_menu_item_by_id(&reg, h, "keep").unwrap().unwrap().label, "Keep");
}

#[test]
fn popup_choice_reports_the_entry_chosen() {
    let mut reg = MenuRegistry::new();
    let h = build(&mut reg, &vec![node("normal", "First", "first")], Theme::Light).unwrap();
    let first = reg.get(h).unwrap().items[0].uuid;
    let second = append(&mut reg, h, to_menu_item(&node("normal", "Second", "second"), first)).unwrap();
    let request = popup(&reg, h, 10, 10).unwrap();
    let s = popup_result(&reg, &request, Some(second)).unwrap().unwrap();
    assert_eq!(s.id, "second");
}

#[test]
fn identifiers_run_out_only_when_all_are_held() {
    let mut reg = MenuRegistry::new();
    let many: Vec<ElectronMenuItem> = (0..65536).map(|_| node("separator", "", "")).collect();
    let h = build(&mut reg, &many, Theme::Light).unwrap();
    assert_eq!(listing(&reg, h).len(), 65536);
    let item = to_menu_item(&node("normal", "X", "x"), 0);
    assert_eq!(append(&mut reg, h, item.duplicate()), Err(MenuError::BuildFailed));
    assert_eq!(insert(&mut reg, h, 0, item.duplicate()), Err(MenuError::BuildFailed));
    assert_eq!(build(&mut reg, &vec![node("normal", "Y", "y")], Theme::Light), Err(MenuError::BuildFailed));
    assert_eq!(reg.len(), 1);
    assert_eq!(build(&mut reg, &Vec::new(), Theme::Light), Ok(2));
    let freed = reg.get(h).unwrap().items[7].uuid;
    remove_at(&mut reg, h, 7).unwrap();
    assert_eq!(append(&mut reg, h, item.duplicate()), Ok(freed));
    assert_eq!(append(&mut reg, h, item), Err(MenuError::BuildFailed));
}

#[test]
fn removed_identifiers_are_handed_out_again() {
    let mut reg = MenuRegistry::new();
    let h = build(&mut reg, &vec![node("normal", "A", "a")], Theme::Light).unwrap();
    for _ in 0..65600 {
        let u = append(&mut reg, h, to_menu_item(&node("normal", "B", "b"), 0)).unwrap();
        let gone = reg.get(h).unwrap().items[1].duplicate();
        assert_eq!(gone.uuid, u);
        assert_eq!(remove(&mut reg, h, &gone), Ok(Some(1)));
    }
    assert_eq!(listing(&reg, h).len(), 1);
}
