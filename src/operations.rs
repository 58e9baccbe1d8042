use vstd::prelude::*;
use crate::config::{theme_from_name, theme_of_name};
use crate::compiler::built_from;
use crate::item::{
    entry_of_node, from_menu_item, kind_of_name, ElectronMenuItem, ItemView, MenuEntry, MenuItem,
    MenuItemType, SelectedItem,
};
use crate::registry::{
    lemma_count_all_set, lemma_count_positive, lemma_same_menus_free, Menu, MenuError, MenuRegistry, UUID_COUNT,
};

verus! {

/// `es` lists the menu under `h`: one listing entry per menu entry, in order,
/// with the listing of the nested menu under each submenu entry.
pub open spec fn listed(menus: Seq<Menu>, es: Seq<MenuEntry>, h: u64) -> bool
    decreases h,
{
    &&& 1 <= h <= menus.len()
    &&& es.len() == menus[h - 1].items@.len()
    &&& forall|i: int|
        #![trigger es[i]]
        0 <= i < es.len() ==> {
            &&& es[i].item == menus[h - 1].items@[i]
            &&& match menus[h - 1].items@[i].submenu {
                Some(c) => c < h && listed(menus, es[i].submenu@, c),
                None => es[i].submenu@.len() == 0,
            }
        }
}

/// The listing `es` shows the forest `t`: the same number of entries in the
/// same order, each of the node's kind and with the node's fields, apart from
/// the identifiers that the build assigned; a submenu entry shows the node's
/// own forest.
pub open spec fn reproduces(es: Seq<MenuEntry>, t: Seq<ElectronMenuItem>) -> bool
    decreases t,
{
    &&& es.len() == t.len()
    &&& forall|i: int|
        #![trigger t[i]]
        0 <= i < t.len() ==> {
            let k = es[i].item.menu_item_type;
            &&& kind_of_name(t[i].itype@) == Some(k)
            &&& es[i].item@ == entry_of_node(t[i], k, es[i].item.uuid, es[i].item.submenu)
            &&& if k == MenuItemType::Submenu {
                reproduces(es[i].submenu@, t[i].submenu@)
            } else {
                es[i].submenu@.len() == 0
            }
        }
}

/// `j` is the first position of an entry with identifier `u`.
pub open spec fn first_with_uuid(items: Seq<MenuItem>, j: int, u: u16) -> bool {
    &&& 0 <= j < items.len()
    &&& items[j].uuid == u
    &&& forall|k: int| 0 <= k < j ==> #[trigger] items[k].uuid != u
}

/// `items` without its first entry with identifier `u`, if it has one.
pub open spec fn without_uuid(items: Seq<MenuItem>, u: u16) -> Seq<MenuItem> {
    if exists|j: int| first_with_uuid(items, j, u) {
        items.remove(choose|j: int| first_with_uuid(items, j, u))
    } else {
        items
    }
}

/// `j` is the first position of an entry with id `id`.
pub open spec fn first_with_id(items: Seq<MenuItem>, j: int, id: Seq<char>) -> bool {
    &&& 0 <= j < items.len()
    &&& items[j].id@ == id
    &&& forall|k: int| 0 <= k < j ==> #[trigger] items[k].id@ != id
}

/// The first entry of `items` with id `id`, if any.
pub open spec fn find_by_id(items: Seq<MenuItem>, id: Seq<char>) -> Option<ItemView> {
    if exists|j: int| first_with_id(items, j, id) {
        Some(items[choose|j: int| first_with_id(items, j, id)]@)
    } else {
        None
    }
}

/// A request to show the menu under `handle` at screen point (`x`, `y`). It
/// holds no reference into the registry, so the registry is free while the
/// menu is shown.
#[derive(Clone, Copy, Debug, PartialEq, Eq, Structural)]
pub struct PopupRequest {
    pub handle: u64,
    pub x: i32,
    pub y: i32,
}

proof fn lemma_first_with_uuid_unique(items: Seq<MenuItem>, j1: int, j2: int, u: u16)
    requires
        first_with_uuid(items, j1, u),
        first_with_uuid(items, j2, u),
    ensures
        j1 == j2,
{
    if j1 < j2 {
        assert(items[j1].uuid != u);
    } else if j2 < j1 {
        assert(items[j2].uuid != u);
    }
}

proof fn lemma_first_with_id_unique(items: Seq<MenuItem>, j1: int, j2: int, id: Seq<char>)
    requires
        first_with_id(items, j1, id),
        first_with_id(items, j2, id),
    ensures
        j1 == j2,
{
    if j1 < j2 {
        assert(items[j1].id@ != id);
    } else if j2 < j1 {
        assert(items[j2].id@ != id);
    }
}

fn list_menu(reg: &MenuRegistry, h: u64) -> (es: Vec<MenuEntry>)
    requires
        reg.wf(),
        reg.contains(h),
    ensures
        listed(reg.menus(), es@, h),
    decreases h,
{
    let menu = match reg.get(h) {
        Ok(m) => m,
        Err(_) => {
            return Vec::new();
        },
    };
    assert(reg.menus()[h - 1] == *menu);
    let mut es: Vec<MenuEntry> = Vec::new();
    let mut i: usize = 0;
    while i < menu.items.len()
        invariant
            reg.wf(),
            reg.contains(h),
            reg.menus()[h - 1] == *menu,
            0 <= i <= menu.items@.len(),
            es@.len() == i,
            forall|j: int|
                #![trigger es@[j]]
                0 <= j < i ==> {
                    &&& es@[j].item == menu.items@[j]
                    &&& match menu.items@[j].submenu {
                        Some(c) => c < h && listed(reg.menus(), es@[j].submenu@, c),
                        None => es@[j].submenu@.len() == 0,
                    }
                },
        decreases menu.items@.len() - i,
    {
        let item = &menu.items[i];
        assert(reg.menus()[h - 1].items@[i as int] == *item);
        let nested = match item.submenu {
            Some(c) => list_menu(reg, c),
            None => Vec::new(),
        };
        es.push(MenuEntry { item: item.duplicate(), submenu: nested });
        i = i + 1;
    }
    es
}

/// A listing of the menu under `handle`, nested menus included; `NotFound`
/// if no menu is registered under it.
pub fn items(reg: &MenuRegistry, handle: u64) -> (r: Result<Vec<MenuEntry>, MenuError>)
    requires
        reg.wf(),
    ensures
        reg.contains(handle) ==> (r matches Ok(es) && listed(reg.menus(), es@, handle)),
        !reg.contains(handle) ==> r matches Err(MenuError::NotFound),
{
    if handle >= 1 && handle <= reg.len() as u64 {
        Ok(list_menu(reg, handle))
    } else {
        Err(MenuError::NotFound)
    }
}

/// The first entry of the menu under `handle` whose id is `id`, or `None`;
/// the nested menus are not searched. `NotFound` if no menu is registered
/// under `handle`.
pub fn get_menu_item_by_id(reg: &MenuRegistry, handle: u64, id: &str) -> (r: Result<Option<MenuItem>, MenuError>)
    requires
        reg.wf(),
    ensures
        !reg.contains(handle) ==> r matches Err(MenuError::NotFound),
        reg.contains(handle) ==> match r {
            Ok(Some(it)) => find_by_id(reg.menu(handle).items@, id@) == Some(it@),
            Ok(None) => find_by_id(reg.menu(handle).items@, id@) is None,
            Err(_) => false,
        },
{
    let menu = match reg.get(handle) {
        Ok(m) => m,
        Err(e) => {
            return Err(e);
        },
    };
    let ghost items = menu.items@;
    assert(items == reg.menu(handle).items@);
    let mut i: usize = 0;
    while i < menu.items.len()
        invariant
            reg.contains(handle),
            items == reg.menu(handle).items@,
            items == menu.items@,
            0 <= i <= items.len(),
            forall|k: int| 0 <= k < i ==> #[trigger] items[k].id@ != id@,
        decreases items.len() - i,
    {
        if same_id(&menu.items[i].id, id) {
            proof {
                assert(first_with_id(items, i as int, id@));
                let j = choose|j: int| first_with_id(items, j, id@);
                lemma_first_with_id_unique(items, i as int, j, id@);
            }
            return Ok(Some(menu.items[i].duplicate()));
        }
        i = i + 1;
    }
    proof {
        assert forall|j: int| !first_with_id(items, j, id@) by {
            if 0 <= j < items.len() {
                assert(items[j].id@ != id@);
            }
        }
    }
    Ok(None)
}

fn same_id(a: &String, b: &str) -> (r: bool)
    ensures
        r == (a@ == b@),
{
    crate::config::same_text(a.as_str(), b)
}

proof fn lemma_fresh_remove(reg: &MenuRegistry, items: Seq<MenuItem>, i: int)
    requires
        reg.fresh_items(items),
        0 <= i < items.len(),
    ensures
        reg.fresh_items(items.remove(i)),
{
    let rest = items.remove(i);
    assert forall|k: int| 0 <= k < rest.len() implies reg.uuid_free(#[trigger] rest[k].uuid)
        && reg.used()[rest[k].uuid as int] by {
        if k < i {
            assert(rest[k] == items[k]);
        } else {
            assert(rest[k] == items[k + 1]);
        }
    }
    assert forall|k1: int, k2: int|
        0 <= k1 < rest.len() && 0 <= k2 < rest.len() && #[trigger] rest[k1].uuid
            == #[trigger] rest[k2].uuid implies k1 == k2 by {
        let o1 = if k1 < i { k1 } else { k1 + 1 };
        let o2 = if k2 < i { k2 } else { k2 + 1 };
        assert(rest[k1] == items[o1]);
        assert(rest[k2] == items[o2]);
        assert(items[o1].uuid == items[o2].uuid);
    }
}

proof fn lemma_fresh_insert(reg: &MenuRegistry, items: Seq<MenuItem>, i: int, x: MenuItem)
    requires
        reg.fresh_items(items),
        0 <= i <= items.len(),
        reg.uuid_free(x.uuid),
        reg.used()[x.uuid as int],
        forall|k: int| 0 <= k < items.len() ==> #[trigger] items[k].uuid != x.uuid,
    ensures
        reg.fresh_items(items.insert(i, x)),
{
    let all = items.insert(i, x);
    assert forall|k: int| 0 <= k < all.len() implies reg.uuid_free(#[trigger] all[k].uuid)
        && reg.used()[all[k].uuid as int] by {
        if k < i {
            assert(all[k] == items[k]);
        } else if k > i {
            assert(all[k] == items[k - 1]);
        }
    }
    assert forall|k1: int, k2: int|
        0 <= k1 < all.len() && 0 <= k2 < all.len() && #[trigger] all[k1].uuid
            == #[trigger] all[k2].uuid implies k1 == k2 by {
        if k1 != i && k2 != i {
            let o1 = if k1 < i { k1 } else { k1 - 1 };
            let o2 = if k2 < i { k2 } else { k2 - 1 };
            assert(all[k1] == items[o1]);
            assert(all[k2] == items[o2]);
            assert(items[o1].uuid == items[o2].uuid);
        } else if k1 != i {
            let o1 = if k1 < i { k1 } else { k1 - 1 };
            assert(all[k1] == items[o1]);
        } else if k2 != i {
            let o2 = if k2 < i { k2 } else { k2 - 1 };
            assert(all[k2] == items[o2]);
        }
    }
}

/// Some identifier is held by no entry of the menus of `reg`.
pub open spec fn has_free_uuid(reg: &MenuRegistry) -> bool {
    exists|u: u16| reg.uuid_free(u)
}

proof fn lemma_free_count(reg: &MenuRegistry)
    requires
        reg.wf(),
    ensures
        has_free_uuid(reg) <==> reg.free_uuid_count() > 0,
{
    if has_free_uuid(reg) {
        let u = choose|u: u16| reg.uuid_free(u);
        assert(!reg.used()[u as int]);
        lemma_count_positive(reg.used(), u as int, UUID_COUNT as int);
    }
    if reg.free_uuid_count() > 0 {
        if forall|i: int| 0 <= i < UUID_COUNT ==> #[trigger] reg.used()[i] {
            lemma_count_all_set(reg.used(), UUID_COUNT as int);
        }
        let i = choose|i: int| 0 <= i < UUID_COUNT && !reg.used()[i];
        let u = i as u16;
        assert(u as int == i);
        assert(reg.uuid_free(u));
    }
}

/// Adds `item`, with an identifier that no entry holds, at position `index`
/// of the menu under `handle`, and returns that identifier.
fn add_entry(reg: &mut MenuRegistry, handle: u64, index: usize, item: MenuItem) -> (r: Result<u16, MenuError>)
    requires
        old(reg).wf(),
        old(reg).contains(handle),
        item.submenu is None,
        index <= old(reg).menu(handle).items@.len(),
    ensures
        final(reg).wf(),
        !has_free_uuid(old(reg)) ==> r == Err::<u16, MenuError>(MenuError::BuildFailed)
            && *final(reg) == *old(reg),
        has_free_uuid(old(reg)) ==> (r matches Ok(u) && {
            &&& old(reg).uuid_free(u)
            &&& final(reg).same_except(old(reg), handle)
            &&& final(reg).menu(handle).menu_type == old(reg).menu(handle).menu_type
            &&& final(reg).menu(handle).theme == old(reg).menu(handle).theme
            &&& final(reg).menu(handle).items@ == old(reg).menu(handle).items@.insert(
                index as int,
                MenuItem { uuid: u, ..item },
            )
        }),
{
    proof {
        lemma_free_count(reg);
    }
    let theme = match reg.get(handle) {
        Ok(m) => m.theme,
        Err(e) => {
            return Err(e);
        },
    };
    let ghost pre = *reg;
    let u = match reg.fresh_uuid() {
        Some(u) => u,
        None => {
            return Err(MenuError::BuildFailed);
        },
    };
    let ghost marked = *reg;
    proof {
        lemma_same_menus_free(&pre, &marked, u);
    }
    let mut entries = reg.take_items(handle);
    let ghost taken = entries@;
    let mut item = item;
    item.uuid = u;
    proof {
        assert forall|k: int| 0 <= k < taken.len() implies #[trigger] taken[k].uuid != u by {
            assert(marked.is_entry(handle - 1, k));
            assert(marked.uuid_at(handle - 1, k) == taken[k].uuid);
        }
        assert(reg.uuid_free(u));
        lemma_fresh_insert(reg, taken, index as int, item);
    }
    entries.insert(index, item);
    assert forall|j: int| 0 <= j < entries@.len() implies (#[trigger] entries@[j].submenu matches Some(
        c,
    ) ==> 1 <= c < handle) by {
        if j < index {
            assert(entries@[j] == taken[j]);
        } else if j > index {
            assert(entries@[j] == taken[j - 1]);
        }
    }
    reg.replace(handle, theme, entries);
    reg.rebuild_uuids();
    Ok(u)
}

/// Adds `item` at the end of the menu under `handle`, with an identifier
/// that no entry holds in place of its own, and returns that identifier. An
/// entry that refers to a nested menu cannot be added: `InvalidArgument`.
/// `NotFound` if no menu is registered under `handle`; `BuildFailed` when
/// every identifier is held by an entry. On failure nothing changes.
pub fn append(reg: &mut MenuRegistry, handle: u64, item: MenuItem) -> (r: Result<u16, MenuError>)
    requires
        old(reg).wf(),
    ensures
        final(reg).wf(),
        !old(reg).contains(handle) ==> r == Err::<u16, MenuError>(MenuError::NotFound),
        old(reg).contains(handle) && item.submenu is Some ==> r == Err::<u16, MenuError>(
            MenuError::InvalidArgument,
        ),
        old(reg).contains(handle) && item.submenu is None && !has_free_uuid(old(reg)) ==> r
            == Err::<u16, MenuError>(MenuError::BuildFailed),
        r is Err ==> *final(reg) == *old(reg),
        old(reg).contains(handle) && item.submenu is None && has_free_uuid(old(reg)) ==> (r matches Ok(
            u,
        ) && {
            &&& old(reg).uuid_free(u)
            &&& final(reg).same_except(old(reg), handle)
            &&& final(reg).menu(handle).menu_type == old(reg).menu(handle).menu_type
            &&& final(reg).menu(handle).theme == old(reg).menu(handle).theme
            &&& final(reg).menu(handle).items@ == old(reg).menu(handle).items@.push(
                MenuItem { uuid: u, ..item },
            )
        }),
{
    if !(handle >= 1 && handle <= reg.len() as u64) {
        return Err(MenuError::NotFound);
    }
    if item.submenu.is_some() {
        return Err(MenuError::InvalidArgument);
    }
    let len = match reg.get(handle) {
        Ok(m) => m.items.len(),
        Err(e) => {
            return Err(e);
        },
    };
    let r = add_entry(reg, handle, len, item);
    proof {
        if let Ok(u) = r {
            let added = MenuItem { uuid: u, ..item };
            assert(old(reg).menu(handle).items@.insert(len as int, added) =~= old(reg).menu(
                handle,
            ).items@.push(added));
        }
    }
    r
}

/// Adds `item` at position `index` of the menu under `handle`, with an
/// identifier that no entry holds in place of its own, and returns that
/// identifier; the entries from `index` on move one place back. An index
/// past the end, or an entry that refers to a nested menu, is refused with
/// `InvalidArgument`; `NotFound` if no menu is registered under `handle`;
/// `BuildFailed` when every identifier is held by an entry. On failure
/// nothing changes.
pub fn insert(reg: &mut MenuRegistry, handle: u64, index: usize, item: MenuItem) -> (r: Result<u16, MenuError>)
    requires
        old(reg).wf(),
    ensures
        final(reg).wf(),
        !old(reg).contains(handle) ==> r == Err::<u16, MenuError>(MenuError::NotFound),
        old(reg).contains(handle) && (item.submenu is Some || index > old(reg).menu(
            handle,
        ).items@.len()) ==> r == Err::<u16, MenuError>(MenuError::InvalidArgument),
        old(reg).contains(handle) && item.submenu is None && index <= old(reg).menu(
            handle,
        ).items@.len() && !has_free_uuid(old(reg)) ==> r == Err::<u16, MenuError>(
            MenuError::BuildFailed,
        ),
        r is Err ==> *final(reg) == *old(reg),
        old(reg).contains(handle) && item.submenu is None && index <= old(reg).menu(
            handle,
        ).items@.len() && has_free_uuid(old(reg)) ==> (r matches Ok(u) && {
            &&& old(reg).uuid_free(u)
            &&& final(reg).same_except(old(reg), handle)
            &&& final(reg).menu(handle).menu_type == old(reg).menu(handle).menu_type
            &&& final(reg).menu(handle).theme == old(reg).menu(handle).theme
            &&& final(reg).menu(handle).items@ == old(reg).menu(handle).items@.insert(
                index as int,
                MenuItem { uuid: u, ..item },
            )
        }),
{
    if !(handle >= 1 && handle <= reg.len() as u64) {
        return Err(MenuError::NotFound);
    }
    if item.submenu.is_some() {
        return Err(MenuError::InvalidArgument);
    }
    match reg.get(handle) {
        Ok(m) => {
            if index > m.items.len() {
                return Err(MenuError::InvalidArgument);
            }
        },
        Err(e) => {
            return Err(e);
        },
    }
    add_entry(reg, handle, index, item)
}

/// Removes from the menu under `handle` its first entry with the identifier
/// of `item` and returns the position it had; a menu without such an entry
/// stays as it is, and the result is `None`. `NotFound` if no menu is
/// registered under `handle`, and then nothing changes.
pub fn remove(reg: &mut MenuRegistry, handle: u64, item: &MenuItem) -> (r: Result<Option<usize>, MenuError>)
    requires
        old(reg).wf(),
    ensures
        final(reg).wf(),
        !old(reg).contains(handle) ==> r == Err::<Option<usize>, MenuError>(MenuError::NotFound)
            && *final(reg) == *old(reg),
        old(reg).contains(handle) ==> {
            &&& r matches Ok(p)
            &&& (p matches Some(j) ==> first_with_uuid(old(reg).menu(handle).items@, j as int, item.uuid))
            &&& (p is None ==> forall|j: int| !first_with_uuid(old(reg).menu(handle).items@, j, item.uuid))
            &&& final(reg).same_except(old(reg), handle)
            &&& final(reg).menu(handle).menu_type == old(reg).menu(handle).menu_type
            &&& final(reg).menu(handle).theme == old(reg).menu(handle).theme
            &&& final(reg).menu(handle).items@ == without_uuid(
                old(reg).menu(handle).items@,
                item.uuid,
            )
        },
{
    if !(handle >= 1 && handle <= reg.len() as u64) {
        return Err(MenuError::NotFound);
    }
    let theme = match reg.get(handle) {
        Ok(m) => m.theme,
        Err(e) => {
            return Err(e);
        },
    };
    let mut entries = reg.take_items(handle);
    let ghost taken = entries@;
    let u = item.uuid;
    let mut i: usize = 0;
    while i < entries.len() && entries[i].uuid != u
        invariant
            entries@ == taken,
            0 <= i <= taken.len(),
            forall|k: int| 0 <= k < i ==> #[trigger] taken[k].uuid != u,
        decreases taken.len() - i,
    {
        i = i + 1;
    }
    let removed = if i < entries.len() {
        Some(i)
    } else {
        None
    };
    if i < entries.len() {
        proof {
            assert(first_with_uuid(taken, i as int, u));
            let j = choose|j: int| first_with_uuid(taken, j, u);
            lemma_first_with_uuid_unique(taken, i as int, j, u);
        }
        entries.remove(i);
        proof {
            lemma_fresh_remove(reg, taken, i as int);
        }
        assert forall|j: int| 0 <= j < entries@.len() implies (#[trigger] entries@[j].submenu matches Some(
            c,
        ) ==> 1 <= c < handle) by {
            if j < i {
                assert(entries@[j] == taken[j]);
            } else {
                assert(entries@[j] == taken[j + 1]);
            }
        }
    } else {
        proof {
            assert forall|j: int| !first_with_uuid(taken, j, u) by {
                if 0 <= j < taken.len() {
                    assert(taken[j].uuid != u);
                }
            }
        }
    }
    reg.replace(handle, theme, entries);
    reg.rebuild_uuids();
    Ok(removed)
}

/// Removes the entry at position `index` of the menu under `handle`; an
/// index past the end leaves the menu as it is. `NotFound` if no menu is
/// registered under `handle`, and then nothing changes.
pub fn remove_at(reg: &mut MenuRegistry, handle: u64, index: usize) -> (r: Result<(), MenuError>)
    requires
        old(reg).wf(),
    ensures
        final(reg).wf(),
        !old(reg).contains(handle) ==> r == Err::<(), MenuError>(MenuError::NotFound)
            && *final(reg) == *old(reg),
        old(reg).contains(handle) ==> {
            &&& r is Ok
            &&& final(reg).same_except(old(reg), handle)
            &&& final(reg).menu(handle).menu_type == old(reg).menu(handle).menu_type
            &&& final(reg).menu(handle).theme == old(reg).menu(handle).theme
            &&& final(reg).menu(handle).items@ == if index < old(reg).menu(handle).items@.len() {
                old(reg).menu(handle).items@.remove(index as int)
            } else {
                old(reg).menu(handle).items@
            }
        },
{
    if !(handle >= 1 && handle <= reg.len() as u64) {
        return Err(MenuError::NotFound);
    }
    let theme = match reg.get(handle) {
        Ok(m) => m.theme,
        Err(e) => {
            return Err(e);
        },
    };
    let mut entries = reg.take_items(handle);
    let ghost taken = entries@;
    if index < entries.len() {
        entries.remove(index);
        proof {
            lemma_fresh_remove(reg, taken, index as int);
        }
        assert forall|j: int| 0 <= j < entries@.len() implies (#[trigger] entries@[j].submenu matches Some(
            c,
        ) ==> 1 <= c < handle) by {
            if j < index {
                assert(entries@[j] == taken[j]);
            } else {
                assert(entries@[j] == taken[j + 1]);
            }
        }
    }
    reg.replace(handle, theme, entries);
    reg.rebuild_uuids();
    Ok(())
}

/// Gives the menu under `handle` the theme that `theme_name` selects.
/// `NotFound` if no menu is registered under `handle`, and then nothing
/// changes.
pub fn set_theme(reg: &mut MenuRegistry, handle: u64, theme_name: &str) -> (r: Result<(), MenuError>)
    requires
        old(reg).wf(),
    ensures
        final(reg).wf(),
        !old(reg).contains(handle) ==> r == Err::<(), MenuError>(MenuError::NotFound)
            && *final(reg) == *old(reg),
        old(reg).contains(handle) ==> {
            &&& r is Ok
            &&& final(reg).same_except(old(reg), handle)
            &&& final(reg).menu(handle).menu_type == old(reg).menu(handle).menu_type
            &&& final(reg).menu(handle).theme == theme_of_name(theme_name@)
            &&& final(reg).menu(handle).items == old(reg).menu(handle).items
        },
{
    if !(handle >= 1 && handle <= reg.len() as u64) {
        return Err(MenuError::NotFound);
    }
    let theme = theme_from_name(theme_name);
    let entries = reg.take_items(handle);
    reg.replace(handle, theme, entries);
    reg.rebuild_uuids();
    Ok(())
}

/// Looks up the menu to show at (`x`, `y`). The request it returns is all
/// that the display step needs; `NotFound` if no menu is registered under
/// `handle`.
pub fn popup(reg: &MenuRegistry, handle: u64, x: i32, y: i32) -> (r: Result<PopupRequest, MenuError>)
    requires
        reg.wf(),
    ensures
        reg.contains(handle) ==> r == Ok::<PopupRequest, MenuError>(PopupRequest { handle, x, y }),
        !reg.contains(handle) ==> r == Err::<PopupRequest, MenuError>(MenuError::NotFound),
{
    match reg.get(handle) {
        Ok(_) => Ok(PopupRequest { handle, x, y }),
        Err(e) => Err(e),
    }
}

/// The first entry with identifier `u` that a choice can land on, searching
/// the menu under `h` from its `i`-th entry on, each submenu entry's menu
/// before the entries after it. Submenu entries themselves open a menu and
/// are never chosen.
pub open spec fn chosen_from(menus: Seq<Menu>, h: u64, u: u16, i: int) -> Option<MenuItem>
    decreases h, menus[h - 1].items@.len() - i,
{
    if !(1 <= h <= menus.len()) || i < 0 || i >= menus[h - 1].items@.len() {
        None
    } else {
        let it = menus[h - 1].items@[i];
        let nested = match it.submenu {
            Some(c) => if c < h {
                chosen_from(menus, c, u, 0)
            } else {
                None
            },
            None => None,
        };
        if it.uuid == u && it.menu_item_type != MenuItemType::Submenu {
            Some(it)
        } else if nested is Some {
            nested
        } else {
            chosen_from(menus, h, u, i + 1)
        }
    }
}

/// `s` reports the entry `it`.
pub open spec fn reports(s: SelectedItem, it: MenuItem) -> bool {
    &&& s.id@ == it.id@
    &&& s.label@ == it.label@
    &&& s.value@ == it.value@
    &&& s.name@ == it.name@
    &&& s.checked == it.checked
}

fn find_chosen(reg: &MenuRegistry, h: u64, u: u16) -> (r: Option<&MenuItem>)
    requires
        reg.wf(),
        reg.contains(h),
    ensures
        r matches Some(it) ==> chosen_from(reg.menus(), h, u, 0) == Some(*it),
        r is None ==> chosen_from(reg.menus(), h, u, 0) is None,
    decreases h,
{
    let menu = match reg.get(h) {
        Ok(m) => m,
        Err(_) => {
            return None;
        },
    };
    let n = menu.items.len();
    let mut i: usize = n;
    let mut found: Option<&MenuItem> = None;
    while i > 0
        invariant
            reg.wf(),
            reg.contains(h),
            reg.menus()[h - 1] == *menu,
            n == menu.items@.len(),
            0 <= i <= n,
            found matches Some(it) ==> chosen_from(reg.menus(), h, u, i as int) == Some(*it),
            found is None ==> chosen_from(reg.menus(), h, u, i as int) is None,
        decreases i,
    {
        i = i - 1;
        let it = &menu.items[i];
        let nested = match it.submenu {
            Some(c) => find_chosen(reg, c, u),
            None => None,
        };
        if it.uuid == u && it.menu_item_type != MenuItemType::Submenu {
            found = Some(it);
        } else if nested.is_some() {
            found = nested;
        }
    }
    found
}

/// The outcome of a shown menu. A menu dismissed without a choice gives
/// `None`, which is no failure. A choice, reported by the entry's identifier,
/// gives what the chosen entry of the menu, or of one of its nested menus,
/// reports; `NotFound` if the menu or the entry is gone.
pub fn popup_result(reg: &MenuRegistry, request: &PopupRequest, chosen: Option<u16>) -> (r: Result<
    Option<SelectedItem>,
    MenuError,
>)
    requires
        reg.wf(),
    ensures
        chosen is None ==> r matches Ok(None),
        chosen matches Some(u) ==> match r {
            Ok(Some(s)) => reg.contains(request.handle) && (chosen_from(
                reg.menus(),
                request.handle,
                u,
                0,
            ) matches Some(it) && reports(s, it)),
            Ok(None) => false,
            Err(e) => e == MenuError::NotFound && (!reg.contains(request.handle) || chosen_from(
                reg.menus(),
                request.handle,
                u,
                0,
            ) is None),
        },
{
    let u = match chosen {
        Some(u) => u,
        None => {
            return Ok(None);
        },
    };
    if !(request.handle >= 1 && request.handle <= reg.len() as u64) {
        return Err(MenuError::NotFound);
    }
    match find_chosen(reg, request.handle, u) {
        Some(it) => Ok(Some(from_menu_item(it))),
        None => Err(MenuError::NotFound),
    }
}

/// Building a template and then listing the menu shows the template again:
/// same count, same order, same fields, at every level.
pub proof fn lemma_listing_reproduces_template(
    menus: Seq<Menu>,
    lo: int,
    h: u64,
    t: Seq<ElectronMenuItem>,
    es: Seq<MenuEntry>,
)
    requires
        built_from(menus, lo, h, t),
        listed(menus, es, h),
    ensures
        reproduces(es, t),
    decreases h,
{
    assert forall|i: int| #![trigger t[i]] 0 <= i < t.len() implies {
        let k = es[i].item.menu_item_type;
        &&& kind_of_name(t[i].itype@) == Some(k)
        &&& es[i].item@ == entry_of_node(t[i], k, es[i].item.uuid, es[i].item.submenu)
        &&& if k == MenuItemType::Submenu {
            reproduces(es[i].submenu@, t[i].submenu@)
        } else {
            es[i].submenu@.len() == 0
        }
    } by {
        assert(es[i].item == menus[h - 1].items@[i]);
        if let Some(c) = menus[h - 1].items@[i].submenu {
            lemma_listing_reproduces_template(menus, lo, c, t[i].submenu@, es[i].submenu@);
        }
    }
}

/// Each live menu has a handle of its own.
pub proof fn lemma_handles_unique(reg: &MenuRegistry)
    requires
        reg.wf(),
    ensures
        forall|i: int, j: int|
            0 <= i < reg.menus().len() && 0 <= j < reg.menus().len() && #[trigger] reg.menus()[i].handle
                == #[trigger] reg.menus()[j].handle ==> i == j,
{
}

/// Removing from a menu the only entry that carries a given id, then
/// looking the id up in that menu, finds nothing.
pub proof fn lemma_removed_id_not_found(reg: &MenuRegistry, h: u64, p: int, removed: MenuItem)
    requires
        reg.wf(),
        reg.contains(h),
        0 <= p < reg.menu(h).items@.len(),
        reg.menu(h).items@[p].uuid == removed.uuid,
        reg.menu(h).items@[p].id@ == removed.id@,
        forall|j: int|
            0 <= j < reg.menu(h).items@.len() && #[trigger] reg.menu(h).items@[j].id@ == removed.id@
                ==> j == p,
    ensures
        find_by_id(without_uuid(reg.menu(h).items@, removed.uuid), removed.id@) is None,
{
    let items = reg.menu(h).items@;
    let m = h - 1;
    let u = removed.uuid;
    assert forall|k: int| 0 <= k < p implies #[trigger] items[k].uuid != u by {
        if items[k].uuid == u {
            assert(reg.uuid_at(m, k) == reg.uuid_at(m, p));
        }
    }
    assert(first_with_uuid(items, p, u));
    let q = choose|j: int| first_with_uuid(items, j, u);
    lemma_first_with_uuid_unique(items, p, q, u);
    let rest = without_uuid(items, u);
    assert(rest == items.remove(p));
    assert forall|j: int| !first_with_id(rest, j, removed.id@) by {
        if 0 <= j < rest.len() && rest[j].id@ == removed.id@ {
            if j < p {
                assert(rest[j] == items[j]);
            } else {
                assert(rest[j] == items[j + 1]);
            }
        }
    }
}

proof fn lemma_chosen_is_entry(menus: Seq<Menu>, h: u64, u: u16, i: int)
    ensures
        chosen_from(menus, h, u, i) matches Some(it) ==> it.uuid == u && exists|m: int, j: int|
            0 <= m < menus.len() && 0 <= j < menus[m].items@.len() && #[trigger] menus[m].items@[j]
                == it,
    decreases h, menus[h - 1].items@.len() - i,
{
    if !(1 <= h <= menus.len()) || i < 0 || i >= menus[h - 1].items@.len() {
    } else {
        let it = menus[h - 1].items@[i];
        if let Some(c) = it.submenu {
            if c < h {
                lemma_chosen_is_entry(menus, c, u, 0);
            }
        }
        lemma_chosen_is_entry(menus, h, u, i + 1);
        if it.uuid == u && it.menu_item_type != MenuItemType::Submenu {
            assert(menus[h - 1].items@[i] == it);
        }
    }
}

/// The entry that a choice reports is the only entry of the registry with
/// the chosen identifier.
pub proof fn lemma_chosen_entry_unique(reg: &MenuRegistry, h: u64, u: u16)
    requires
        reg.wf(),
    ensures
        chosen_from(reg.menus(), h, u, 0) matches Some(it) ==> forall|m: int, j: int|
            reg.is_entry(m, j) && #[trigger] reg.uuid_at(m, j) == u ==> reg.menus()[m].items@[j] == it,
{
    lemma_chosen_is_entry(reg.menus(), h, u, 0);
    if let Some(it) = chosen_from(reg.menus(), h, u, 0) {
        let (m0, j0) = choose|m: int, j: int|
            0 <= m < reg.menus().len() && 0 <= j < reg.menus()[m].items@.len()
                && #[trigger] reg.menus()[m].items@[j] == it;
        assert forall|m: int, j: int| reg.is_entry(m, j) && #[trigger] reg.uuid_at(m, j) == u implies reg.menus()[m].items@[j]
            == it by {
            assert(reg.uuid_at(m0, j0) == u);
        }
    }
}

} // verus!
