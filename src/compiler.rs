use vstd::prelude::*;
use crate::config::{theme_from_name, theme_of_name, to_config, config_of_value, Config, ConfigValue, Theme};
use crate::item::{
    entry_from_node, entry_of_node, is_valid_template, kind_from_name, kind_of_name,
    template_is_valid, ElectronMenuItem, MenuItem, MenuItemType, MenuType,
};
use crate::registry::{lemma_fresh_kept, lemma_same_menus_free, MenuError, MenuRegistry, Menu};

verus! {

/// The menu under `h` among `menus` holds one entry per node of `t`, in
/// order: each entry is what its node becomes, and each submenu entry refers
/// to a menu registered after the first `lo` menus and before the menu under
/// `h`, built from the node's own forest.
pub open spec fn built_from(menus: Seq<Menu>, lo: int, h: u64, t: Seq<ElectronMenuItem>) -> bool
    decreases h,
{
    &&& 1 <= h <= menus.len()
    &&& menus[h - 1].items@.len() == t.len()
    &&& forall|i: int|
        #![trigger t[i]]
        0 <= i < t.len() ==> {
            let item = menus[h - 1].items@[i];
            &&& kind_of_name(t[i].itype@) == Some(item.menu_item_type)
            &&& item@ == entry_of_node(t[i], item.menu_item_type, item.uuid, item.submenu)
            &&& (item.menu_item_type == MenuItemType::Submenu) == (item.submenu is Some)
            &&& (item.submenu matches Some(c) ==> lo < c < h && built_from(
                menus,
                lo,
                c,
                t[i].submenu@,
            ))
        }
}

/// The number of menus that the forest `t` compiles to: one for its own
/// level and those of its submenu nodes.
pub open spec fn menu_count(t: Seq<ElectronMenuItem>) -> nat
    decreases t, t.len() + 1,
{
    1 + nested_count(t, t.len() as int)
}

/// The number of menus that the submenu nodes among the first `n` nodes of
/// `t` compile to.
pub open spec fn nested_count(t: Seq<ElectronMenuItem>, n: int) -> nat
    decreases t, n,
{
    if n <= 0 || n > t.len() {
        0
    } else {
        nested_count(t, n - 1) + if kind_of_name(t[n - 1].itype@) == Some(MenuItemType::Submenu) {
            menu_count(t[n - 1].submenu@)
        } else {
            0
        }
    }
}

/// The number of entries that the forest `t` compiles to, at every level.
pub open spec fn entry_count(t: Seq<ElectronMenuItem>) -> nat
    decreases t, t.len() + 1,
{
    nested_entries(t, t.len() as int)
}

/// The number of entries that the first `n` nodes of `t` compile to, the
/// entries of their nested menus included.
pub open spec fn nested_entries(t: Seq<ElectronMenuItem>, n: int) -> nat
    decreases t, n,
{
    if n <= 0 || n > t.len() {
        0
    } else {
        nested_entries(t, n - 1) + 1 + if kind_of_name(t[n - 1].itype@) == Some(
            MenuItemType::Submenu,
        ) {
            entry_count(t[n - 1].submenu@)
        } else {
            0
        }
    }
}

/// The menus that `after` holds beyond those of `before` have theme
/// `theme`, all but the last are submenus, and their entries carry
/// identifiers that the record of `before` showed as not in use.
pub open spec fn new_menus(before: MenuRegistry, after: MenuRegistry, theme: Theme) -> bool {
    &&& forall|k: int|
        #![trigger after.menus()[k]]
        before.menus().len() <= k < after.menus().len() ==> {
            &&& after.menus()[k].theme == theme
            &&& k < after.menus().len() - 1 ==> after.menus()[k].menu_type == MenuType::Submenu
        }
    &&& forall|m: int, j: int|
        before.menus().len() <= m && after.is_entry(m, j) ==> !before.used()[#[trigger] after.uuid_at(
            m,
            j,
        ) as int]
}

/// Every menu that `reg` holds beyond those of `start` is a submenu with
/// theme `theme`, and its entries carry identifiers that the record of
/// `start` showed as not in use.
pub open spec fn submenus_since(start: MenuRegistry, reg: MenuRegistry, theme: Theme) -> bool {
    &&& forall|k: int|
        #![trigger reg.menus()[k]]
        start.menus().len() <= k < reg.menus().len() ==> reg.menus()[k].theme == theme
            && reg.menus()[k].menu_type == MenuType::Submenu
    &&& forall|m: int, j: int|
        start.menus().len() <= m && reg.is_entry(m, j) ==> !start.used()[#[trigger] reg.uuid_at(
            m,
            j,
        ) as int]
}

proof fn lemma_submenus_are_new(start: MenuRegistry, reg: MenuRegistry, theme: Theme)
    requires
        submenus_since(start, reg, theme),
    ensures
        new_menus(start, reg, theme),
{
}

/// Menus added in two steps: first only submenus, then what a nested build
/// adds.
proof fn lemma_new_menus_chain(
    start: MenuRegistry,
    mid: MenuRegistry,
    reg: MenuRegistry,
    theme: Theme,
    last_is_submenu: bool,
)
    requires
        submenus_since(start, mid, theme),
        new_menus(mid, reg, theme),
        reg.extends(&mid),
        start.menus().len() <= mid.menus().len(),
        mid.marks_kept(&start),
        last_is_submenu && mid.menus().len() < reg.menus().len() ==> reg.menus()[reg.menus().len()
            - 1].menu_type == MenuType::Submenu,
    ensures
        new_menus(start, reg, theme),
        last_is_submenu ==> submenus_since(start, reg, theme),
{
    assert forall|k: int|
        #![trigger reg.menus()[k]]
        start.menus().len() <= k < reg.menus().len() implies {
        &&& reg.menus()[k].theme == theme
        &&& k < reg.menus().len() - 1 ==> reg.menus()[k].menu_type == MenuType::Submenu
        &&& last_is_submenu ==> reg.menus()[k].menu_type == MenuType::Submenu
    } by {
        if k < mid.menus().len() {
            assert(reg.menus()[k] == mid.menus()[k]);
        }
    }
    assert forall|m: int, j: int| start.menus().len() <= m && reg.is_entry(m, j) implies !start.used()[#[trigger] reg.uuid_at(
        m,
        j,
    ) as int] by {
        if m < mid.menus().len() {
            assert(reg.menus()[m] == mid.menus()[m]);
            assert(!start.used()[mid.uuid_at(m, j) as int]);
        } else {
            assert(!mid.used()[reg.uuid_at(m, j) as int]);
        }
    }
}

proof fn lemma_nested_count_grows(t: Seq<ElectronMenuItem>, i: int, j: int)
    requires
        0 <= i <= j <= t.len(),
    ensures
        nested_count(t, i) <= nested_count(t, j),
        nested_entries(t, i) <= nested_entries(t, j),
    decreases j - i,
{
    if i < j {
        lemma_nested_count_grows(t, i, j - 1);
    }
}

/// What a menu is built from stays true as later menus are registered, and
/// with a smaller bound.
proof fn lemma_built_from_extends(
    m1: Seq<Menu>,
    m2: Seq<Menu>,
    lo1: int,
    lo2: int,
    h: u64,
    t: Seq<ElectronMenuItem>,
)
    requires
        m1.len() <= m2.len(),
        forall|i: int| 0 <= i < m1.len() ==> #[trigger] m2[i] == m1[i],
        lo2 <= lo1,
        built_from(m1, lo1, h, t),
    ensures
        built_from(m2, lo2, h, t),
    decreases h,
{
    assert(m2[h - 1] == m1[h - 1]);
    assert forall|i: int| #![trigger t[i]] 0 <= i < t.len() implies {
        let item = m2[h - 1].items@[i];
        &&& kind_of_name(t[i].itype@) == Some(item.menu_item_type)
        &&& item@ == entry_of_node(t[i], item.menu_item_type, item.uuid, item.submenu)
        &&& (item.menu_item_type == MenuItemType::Submenu) == (item.submenu is Some)
        &&& (item.submenu matches Some(c) ==> lo2 < c < h && built_from(m2, lo2, c, t[i].submenu@))
    } by {
        let item = m1[h - 1].items@[i];
        if let Some(c) = item.submenu {
            lemma_built_from_extends(m1, m2, lo1, lo2, c, t[i].submenu@);
        }
    }
}

/// Compiles one level of a template into a menu of type `menu_type`,
/// registering each nested level first; returns the new menu's handle.
fn build_level(reg: &mut MenuRegistry, t: &Vec<ElectronMenuItem>, theme: Theme, menu_type: MenuType) -> (r: Result<u64, MenuError>)
    requires
        old(reg).wf_loose(),
        template_is_valid(t@),
    ensures
        final(reg).wf_loose(),
        final(reg).extends(old(reg)),
        final(reg).marks_kept(old(reg)),
        new_menus(*old(reg), *final(reg), theme),
        match r {
            Ok(h) => {
                &&& built_from(final(reg).menus(), old(reg).menus().len() as int, h, t@)
                &&& final(reg).menus().len() == old(reg).menus().len() + menu_count(t@)
                &&& final(reg).free_uuid_count() + entry_count(t@) == old(reg).free_uuid_count()
                &&& h == final(reg).menus().len()
                &&& final(reg).menu(h).menu_type == menu_type
            },
            Err(e) => {
                &&& e == MenuError::BuildFailed
                &&& (old(reg).menus().len() + menu_count(t@) > usize::MAX || old(reg).free_uuid_count()
                    < entry_count(t@))
            },
        },
    decreases t@,
{
    let ghost start = *reg;
    let ghost lo = start.menus().len() as int;
    let mut items: Vec<MenuItem> = Vec::new();
    let mut i: usize = 0;
    while i < t.len()
        invariant
            reg.wf_loose(),
            reg.extends(&start),
            start == *old(reg),
            lo == start.menus().len(),
            template_is_valid(t@),
            0 <= i <= t.len(),
            items@.len() == i,
            reg.menus().len() == start.menus().len() + nested_count(t@, i as int),
            reg.free_uuid_count() + nested_entries(t@, i as int) == start.free_uuid_count(),
            reg.marks_kept(&start),
            reg.fresh_items(items@),
            forall|j: int| 0 <= j < i ==> !start.used()[#[trigger] items@[j].uuid as int],
            submenus_since(start, *reg, theme),
            forall|j: int|
                #![trigger t@[j]]
                0 <= j < i ==> {
                    let item = items@[j];
                    &&& kind_of_name(t@[j].itype@) == Some(item.menu_item_type)
                    &&& item@ == entry_of_node(t@[j], item.menu_item_type, item.uuid, item.submenu)
                    &&& (item.menu_item_type == MenuItemType::Submenu) == (item.submenu is Some)
                    &&& (item.submenu matches Some(c) ==> lo < c <= reg.menus().len()
                        && built_from(reg.menus(), lo, c, t@[j].submenu@))
                },
        decreases t.len() - i,
    {
        let node = &t[i];
        assert(kind_of_name(t@[i as int].itype@) is Some);
        let k = match kind_from_name(node.itype.as_str()) {
            Some(k) => k,
            None => {
                return Err(MenuError::BuildFailed);
            },
        };
        let ghost before = *reg;
        let mut submenu: Option<u64> = None;
        if k == MenuItemType::Submenu {
            match build_level(reg, &node.submenu, theme, MenuType::Submenu) {
                Ok(c) => {
                    submenu = Some(c);
                },
                Err(e) => {
                    proof {
                        lemma_nested_count_grows(t@, i + 1, t@.len() as int);
                        lemma_new_menus_chain(start, before, *reg, theme, false);
                    }
                    return Err(e);
                },
            }
        }
        proof {
            lemma_fresh_kept(&before, reg, items@);
            assert forall|j: int| #![trigger t@[j]] 0 <= j < i implies {
                let item = items@[j];
                item.submenu matches Some(c) ==> lo < c <= reg.menus().len() && built_from(
                    reg.menus(),
                    lo,
                    c,
                    t@[j].submenu@,
                )
            } by {
                if let Some(c) = items@[j].submenu {
                    lemma_built_from_extends(before.menus(), reg.menus(), lo, lo, c, t@[j].submenu@);
                }
            }
            if let Some(c) = submenu {
                lemma_built_from_extends(
                    reg.menus(),
                    reg.menus(),
                    before.menus().len() as int,
                    lo,
                    c,
                    node.submenu@,
                );
            }
            if submenu is Some {
                lemma_new_menus_chain(start, before, *reg, theme, true);
            }
        }
        assert(reg.menus().len() == start.menus().len() + nested_count(t@, i + 1));
        let ghost before_uuid = *reg;
        let uuid = match reg.fresh_uuid() {
            Some(u) => u,
            None => {
                proof {
                    lemma_nested_count_grows(t@, i + 1, t@.len() as int);
                    lemma_submenus_are_new(start, *reg, theme);
                }
                return Err(MenuError::BuildFailed);
            },
        };
        let item = entry_from_node(node, k, uuid, submenu);
        let ghost pending = items@;
        items.push(item);
        proof {
            assert(items@ == pending.push(item));
            assert(!before_uuid.used()[uuid as int]);
            assert(reg.menus() == before_uuid.menus());
            assert forall|kk: int| 0 <= kk < items@.len() implies reg.uuid_free(#[trigger] items@[kk].uuid)
                && reg.used()[items@[kk].uuid as int] by {
                if kk < pending.len() {
                    assert(items@[kk] == pending[kk]);
                    assert(before_uuid.uuid_free(pending[kk].uuid));
                    assert(before_uuid.used()[pending[kk].uuid as int]);
                    lemma_same_menus_free(&before_uuid, reg, pending[kk].uuid);
                } else {
                    assert(items@[kk].uuid == uuid);
                    lemma_same_menus_free(&before_uuid, reg, uuid);
                }
            }
            assert forall|k1: int, k2: int|
                0 <= k1 < items@.len() && 0 <= k2 < items@.len() && #[trigger] items@[k1].uuid
                    == #[trigger] items@[k2].uuid implies k1 == k2 by {
                if k1 < pending.len() && k2 < pending.len() {
                    assert(pending[k1].uuid == pending[k2].uuid);
                } else if k1 < pending.len() {
                    assert(before_uuid.used()[pending[k1].uuid as int]);
                } else if k2 < pending.len() {
                    assert(before_uuid.used()[pending[k2].uuid as int]);
                }
            }
            assert forall|kk: int| 0 <= kk < items@.len() implies !start.used()[#[trigger] items@[kk].uuid as int] by {
                if kk == pending.len() {
                    assert(items@[kk].uuid == uuid);
                    if start.used()[uuid as int] {
                        assert(before_uuid.used()[uuid as int]);
                    }
                }
            }
            assert forall|u: u16| #[trigger] start.used()[u as int] implies reg.used()[u as int] by {
                assert(before_uuid.used()[u as int]);
            }
            assert forall|m: int, j: int| lo <= m && reg.is_entry(m, j) implies !start.used()[#[trigger] reg.uuid_at(
                m,
                j,
            ) as int] by {
                assert(!start.used()[before_uuid.uuid_at(m, j) as int]);
            }
            assert forall|kk: int|
                #![trigger reg.menus()[kk]]
                lo <= kk < reg.menus().len() implies reg.menus()[kk].theme == theme
                && reg.menus()[kk].menu_type == MenuType::Submenu by {
                assert(reg.menus()[kk] == before_uuid.menus()[kk]);
            }
        }
        i = i + 1;
    }
    let ghost before = *reg;
    let ghost done = items@;
    assert forall|j: int| 0 <= j < items@.len() implies (#[trigger] items@[j].submenu matches Some(
        c,
    ) ==> 1 <= c <= reg.menus().len()) by {
        let node = t@[j];
        if let Some(c) = items@[j].submenu {
            assert(1 <= c <= reg.menus().len());
        }
    }
    assert(t@.len() == i);
    let r = reg.register(menu_type, theme, items);
    match r {
        Ok(h) => {
            proof {
                assert(menu_count(t@) == 1 + nested_count(t@, t@.len() as int));
                assert(reg.menus()[h - 1].items@ == done);
                assert forall|j: int| #![trigger t@[j]] 0 <= j < t@.len() implies {
                    let item = reg.menus()[h - 1].items@[j];
                    item.submenu matches Some(c) ==> lo < c < h && built_from(
                        reg.menus(),
                        lo,
                        c,
                        t@[j].submenu@,
                    )
                } by {
                    if let Some(c) = done[j].submenu {
                        lemma_built_from_extends(before.menus(), reg.menus(), lo, lo, c, t@[j].submenu@);
                    }
                }
                assert forall|kk: int|
                    #![trigger reg.menus()[kk]]
                    lo <= kk < reg.menus().len() implies {
                    &&& reg.menus()[kk].theme == theme
                    &&& kk < reg.menus().len() - 1 ==> reg.menus()[kk].menu_type
                        == MenuType::Submenu
                } by {
                    if kk < before.menus().len() {
                        assert(reg.menus()[kk] == before.menus()[kk]);
                    }
                }
                assert forall|m: int, j: int| lo <= m && reg.is_entry(m, j) implies !old(reg).used()[#[trigger] reg.uuid_at(
                    m,
                    j,
                ) as int] by {
                    if m < before.menus().len() {
                        assert(reg.menus()[m] == before.menus()[m]);
                        assert(!start.used()[before.uuid_at(m, j) as int]);
                    } else {
                        assert(!start.used()[done[j].uuid as int]);
                    }
                }
            }
            Ok(h)
        },
        Err(e) => {
            assert(menu_count(t@) == 1 + nested_count(t@, t@.len() as int));
            proof {
                lemma_new_menus_chain(start, before, *reg, theme, false);
            }
            Err(e)
        },
    }
}

/// What building the forest `t` with theme `theme` into the registry
/// `before` gives: an unknown type name is refused with `InvalidArgument`;
/// when the registry has no handle left for each menu of the forest, or
/// fewer identifiers that no live entry holds than the forest has entries,
/// the build fails with `BuildFailed`; on
/// either failure no menu is registered. Otherwise the forest's menus are
/// registered under fresh handles, each submenu before the menu that holds
/// it and the root menu last, all with theme `theme`; the root menu's handle
/// is the result.
pub open spec fn build_result(
    before: MenuRegistry,
    after: MenuRegistry,
    t: Seq<ElectronMenuItem>,
    theme: Theme,
    r: Result<u64, MenuError>,
) -> bool {
    &&& after.wf()
    &&& after.extends(&before)
    &&& if !template_is_valid(t) {
        &&& r == Err::<u64, MenuError>(MenuError::InvalidArgument)
        &&& after.menus() == before.menus()
    } else if before.menus().len() + menu_count(t) > usize::MAX || before.free_uuid_count()
        < entry_count(t) {
        &&& r == Err::<u64, MenuError>(MenuError::BuildFailed)
        &&& after.menus() == before.menus()
    } else {
        &&& r matches Ok(h)
        &&& after.menus().len() == before.menus().len() + menu_count(t)
        &&& h == after.menus().len()
        &&& built_from(after.menus(), before.menus().len() as int, h, t)
        &&& after.menu(h).menu_type == MenuType::Main
        &&& new_menus(before, after, theme)
        &&& forall|m: int, j: int|
            before.menus().len() <= m && after.is_entry(m, j) ==> before.uuid_free(
                #[trigger] after.uuid_at(m, j),
            )
    }
}

/// Compiles the forest `t` into a root menu with theme `theme`, registering
/// a menu of its own for each submenu node first; returns the root menu's
/// handle.
pub fn build(reg: &mut MenuRegistry, t: &Vec<ElectronMenuItem>, theme: Theme) -> (r: Result<u64, MenuError>)
    requires
        old(reg).wf(),
    ensures
        build_result(*old(reg), *final(reg), t@, theme, r),
{
    if !is_valid_template(t) {
        return Err(MenuError::InvalidArgument);
    }
    let start = reg.len();
    let ghost before = *reg;
    match build_level(reg, t, theme, MenuType::Main) {
        Ok(h) => {
            let ghost built = *reg;
            reg.rebuild_uuids();
            proof {
                assert forall|m: int, j: int|
                    before.menus().len() <= m && reg.is_entry(m, j) implies before.uuid_free(
                    #[trigger] reg.uuid_at(m, j),
                ) by {
                    assert(!before.used()[built.uuid_at(m, j) as int]);
                }
            }
            Ok(h)
        },
        Err(e) => {
            reg.truncate(start);
            assert(reg.menus() =~= before.menus());
            Err(e)
        },
    }
}

/// Builds a menu from a template with the platform's default configuration
/// `defaults`.
pub fn build_from_template(reg: &mut MenuRegistry, t: &Vec<ElectronMenuItem>, defaults: &Config) -> (r: Result<u64, MenuError>)
    requires
        old(reg).wf(),
    ensures
        build_result(*old(reg), *final(reg), t@, defaults.theme, r),
{
    build(reg, t, defaults.theme)
}

/// Builds a menu from a template with the theme that `theme_name` selects.
pub fn build_from_template_with_theme(reg: &mut MenuRegistry, t: &Vec<ElectronMenuItem>, theme_name: &str) -> (r: Result<u64, MenuError>)
    requires
        old(reg).wf(),
    ensures
        build_result(*old(reg), *final(reg), t@, theme_of_name(theme_name@), r),
{
    build(reg, t, theme_from_name(theme_name))
}

/// Builds a menu from a template with the configuration that the host value
/// `value` describes.
pub fn build_from_template_with_config(reg: &mut MenuRegistry, t: &Vec<ElectronMenuItem>, value: &ConfigValue) -> (r: Result<u64, MenuError>)
    requires
        old(reg).wf(),
    ensures
        build_result(*old(reg), *final(reg), t@, config_of_value(value@).theme, r),
{
    let config = to_config(value);
    build(reg, t, config.theme)
}

} // verus!
