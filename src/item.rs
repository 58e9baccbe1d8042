use vstd::prelude::*;
use crate::config::same_text;

verus! {

/// The five kinds of menu entry.
#[derive(Clone, Copy, Debug, PartialEq, Eq, Structural)]
pub enum MenuItemType {
    Text,
    Separator,
    Submenu,
    Checkbox,
    Radio,
}

/// Whether a menu is a root menu or a submenu of another one.
#[derive(Clone, Copy, Debug, PartialEq, Eq, Structural)]
pub enum MenuType {
    Main,
    Submenu,
}

/// One node of a menu template: the declarative description of an entry.
/// An empty string stands for an absent text field.
#[derive(Debug)]
pub struct ElectronMenuItem {
    pub itype: String,
    pub label: String,
    pub accelerator: String,
    pub enabled: bool,
    pub checked: bool,
    pub submenu: Vec<ElectronMenuItem>,
    pub id: String,
    pub name: String,
    pub value: String,
}

/// An entry of a built menu. `submenu` is the handle of the nested menu of a
/// `Submenu` entry; `uuid` tells entries apart when they are removed.
#[derive(Clone, Debug)]
pub struct MenuItem {
    pub id: String,
    pub label: String,
    pub value: String,
    pub accelerator: String,
    pub name: String,
    pub menu_item_type: MenuItemType,
    pub submenu: Option<u64>,
    pub checked: bool,
    pub disabled: bool,
    pub uuid: u16,
}

/// Mathematical form of a `MenuItem`.
pub struct ItemView {
    pub id: Seq<char>,
    pub label: Seq<char>,
    pub value: Seq<char>,
    pub accelerator: Seq<char>,
    pub name: Seq<char>,
    pub menu_item_type: MenuItemType,
    pub submenu: Option<u64>,
    pub checked: bool,
    pub disabled: bool,
    pub uuid: u16,
}

impl View for MenuItem {
    type V = ItemView;

    open spec fn view(&self) -> ItemView {
        ItemView {
            id: self.id@,
            label: self.label@,
            value: self.value@,
            accelerator: self.accelerator@,
            name: self.name@,
            menu_item_type: self.menu_item_type,
            submenu: self.submenu,
            checked: self.checked,
            disabled: self.disabled,
            uuid: self.uuid,
        }
    }
}

/// One entry of a menu listing: the entry itself and, for a submenu entry,
/// the listing of its nested menu.
#[derive(Debug)]
pub struct MenuEntry {
    pub item: MenuItem,
    pub submenu: Vec<MenuEntry>,
}

/// What a selection reports of the chosen entry.
#[derive(Clone, Debug)]
pub struct SelectedItem {
    pub id: String,
    pub label: String,
    pub value: String,
    pub name: String,
    pub checked: bool,
}

/// The kind a template type name stands for, if any; a node without a type
/// name is a plain text entry.
pub open spec fn kind_of_name(s: Seq<char>) -> Option<MenuItemType> {
    if s == "normal"@ || s.len() == 0 {
        Some(MenuItemType::Text)
    } else if s == "separator"@ {
        Some(MenuItemType::Separator)
    } else if s == "submenu"@ {
        Some(MenuItemType::Submenu)
    } else if s == "checkbox"@ {
        Some(MenuItemType::Checkbox)
    } else if s == "radio"@ {
        Some(MenuItemType::Radio)
    } else {
        None
    }
}

pub open spec fn kind_name_of(k: MenuItemType) -> Seq<char> {
    match k {
        MenuItemType::Text => "normal"@,
        MenuItemType::Separator => "separator"@,
        MenuItemType::Submenu => "submenu"@,
        MenuItemType::Checkbox => "checkbox"@,
        MenuItemType::Radio => "radio"@,
    }
}

/// The entry that a template node of kind `k` becomes. A separator keeps no
/// field of the node; only check and radio entries keep the checked state,
/// and only radio entries the group name.
pub open spec fn entry_of_node(
    node: ElectronMenuItem,
    k: MenuItemType,
    uuid: u16,
    submenu: Option<u64>,
) -> ItemView {
    if k == MenuItemType::Separator {
        ItemView {
            id: Seq::empty(),
            label: Seq::empty(),
            value: Seq::empty(),
            accelerator: Seq::empty(),
            name: Seq::empty(),
            menu_item_type: k,
            submenu,
            checked: false,
            disabled: false,
            uuid,
        }
    } else {
        ItemView {
            id: node.id@,
            label: node.label@,
            value: node.value@,
            accelerator: node.accelerator@,
            name: if k == MenuItemType::Radio { node.name@ } else { Seq::empty() },
            menu_item_type: k,
            submenu,
            checked: (k == MenuItemType::Checkbox || k == MenuItemType::Radio) && node.checked,
            disabled: !node.enabled,
            uuid,
        }
    }
}

/// The kind that a node added to a built menu takes: a submenu node or one
/// of unknown type becomes a plain text entry.
pub open spec fn added_kind(s: Seq<char>) -> MenuItemType {
    match kind_of_name(s) {
        Some(MenuItemType::Submenu) => MenuItemType::Text,
        Some(k) => k,
        None => MenuItemType::Text,
    }
}

/// Every node of the forest has one of the five known type names, and so
/// has every node below a submenu node; the nested lists of other nodes are
/// never compiled and not looked at.
pub open spec fn template_is_valid(t: Seq<ElectronMenuItem>) -> bool
    decreases t,
{
    forall|i: int|
        0 <= i < t.len() ==> {
            &&& #[trigger] kind_of_name(t[i].itype@) is Some
            &&& kind_of_name(t[i].itype@) == Some(MenuItemType::Submenu) ==> template_is_valid(
                t[i].submenu@,
            )
        }
}

/// The kind that a template type name stands for, if any.
pub fn kind_from_name(s: &str) -> (k: Option<MenuItemType>)
    ensures
        k == kind_of_name(s@),
{
    if same_text(s, "normal") || s.is_empty() {
        Some(MenuItemType::Text)
    } else if same_text(s, "separator") {
        Some(MenuItemType::Separator)
    } else if same_text(s, "submenu") {
        Some(MenuItemType::Submenu)
    } else if same_text(s, "checkbox") {
        Some(MenuItemType::Checkbox)
    } else if same_text(s, "radio") {
        Some(MenuItemType::Radio)
    } else {
        None
    }
}

/// The template type name of a kind.
pub fn kind_name(k: MenuItemType) -> (s: String)
    ensures
        s@ == kind_name_of(k),
{
    match k {
        MenuItemType::Text => "normal".to_owned(),
        MenuItemType::Separator => "separator".to_owned(),
        MenuItemType::Submenu => "submenu".to_owned(),
        MenuItemType::Checkbox => "checkbox".to_owned(),
        MenuItemType::Radio => "radio".to_owned(),
    }
}

/// Builds the entry that `node` becomes as an entry of kind `k`.
pub fn entry_from_node(node: &ElectronMenuItem, k: MenuItemType, uuid: u16, submenu: Option<u64>) -> (r: MenuItem)
    ensures
        r@ == entry_of_node(*node, k, uuid, submenu),
{
    if k == MenuItemType::Separator {
        MenuItem {
            id: String::new(),
            label: String::new(),
            value: String::new(),
            accelerator: String::new(),
            name: String::new(),
            menu_item_type: k,
            submenu,
            checked: false,
            disabled: false,
            uuid,
        }
    } else {
        let accelerator = node.accelerator.clone();
        let name = if k == MenuItemType::Radio {
            node.name.clone()
        } else {
            String::new()
        };
        MenuItem {
            id: node.id.clone(),
            label: node.label.clone(),
            value: node.value.clone(),
            accelerator,
            name,
            menu_item_type: k,
            submenu,
            checked: (k == MenuItemType::Checkbox || k == MenuItemType::Radio) && node.checked,
            disabled: !node.enabled,
            uuid,
        }
    }
}

/// The entry that `node` becomes when it is added to a built menu: a
/// submenu node or one of unknown type becomes a plain text entry, and the
/// entry carries the given `uuid`.
pub fn to_menu_item(node: &ElectronMenuItem, uuid: u16) -> (r: MenuItem)
    ensures
        r@ == entry_of_node(*node, added_kind(node.itype@), uuid, None),
{
    let k = match kind_from_name(node.itype.as_str()) {
        Some(MenuItemType::Submenu) => MenuItemType::Text,
        Some(k) => k,
        None => MenuItemType::Text,
    };
    entry_from_node(node, k, uuid, None)
}

impl MenuItem {
    /// A copy of this entry.
    pub fn duplicate(&self) -> (r: MenuItem)
        ensures
            r == *self,
    {
        MenuItem {
            id: self.id.clone(),
            label: self.label.clone(),
            value: self.value.clone(),
            accelerator: self.accelerator.clone(),
            name: self.name.clone(),
            menu_item_type: self.menu_item_type,
            submenu: self.submenu,
            checked: self.checked,
            disabled: self.disabled,
            uuid: self.uuid,
        }
    }
}

/// What a selection of `item` reports.
pub fn from_menu_item(item: &MenuItem) -> (r: SelectedItem)
    ensures
        r.id@ == item.id@,
        r.label@ == item.label@,
        r.value@ == item.value@,
        r.name@ == item.name@,
        r.checked == item.checked,
{
    SelectedItem {
        id: item.id.clone(),
        label: item.label.clone(),
        value: item.value.clone(),
        name: item.name.clone(),
        checked: item.checked,
    }
}

/// Whether every node of `t`, and every node below them, has a known type
/// name.
pub fn is_valid_template(t: &Vec<ElectronMenuItem>) -> (r: bool)
    ensures
        r == template_is_valid(t@),
    decreases t@,
{
    let mut i: usize = 0;
    while i < t.len()
        invariant
            0 <= i <= t.len(),
            forall|j: int|
                0 <= j < i ==> {
                    &&& #[trigger] kind_of_name(t@[j].itype@) is Some
                    &&& kind_of_name(t@[j].itype@) == Some(MenuItemType::Submenu)
                        ==> template_is_valid(t@[j].submenu@)
                },
        decreases t.len() - i,
    {
        let node = &t[i];
        match kind_from_name(node.itype.as_str()) {
            None => {
                return false;
            },
            Some(MenuItemType::Submenu) => {
                if !is_valid_template(&node.submenu) {
                    return false;
                }
            },
            Some(_) => {},
        }
        i = i + 1;
    }
    true
}

} // verus!
