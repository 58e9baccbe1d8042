use vstd::prelude::*;
use crate::config::Theme;
use crate::item::{MenuItem, MenuType};

verus! {

/// Failures that the menu operations report.
#[derive(Clone, Copy, Debug, PartialEq, Eq, Structural)]
pub enum MenuError {
    /// An argument has the wrong shape; nothing was changed.
    InvalidArgument,
    /// No menu is registered under the handle, or no entry has the id.
    NotFound,
    /// A menu or an entry could not be finished because no handle is left,
    /// or every entry identifier is held by a live entry; no menu was
    /// registered.
    BuildFailed,
    /// The platform reported a failure of its own.
    NativeFailure,
}

/// A live menu: its handle, whether it is a root menu, its theme and its
/// entries in display order.
#[derive(Debug)]
pub struct Menu {
    pub handle: u64,
    pub menu_type: MenuType,
    pub theme: Theme,
    pub items: Vec<MenuItem>,
}

/// The number of entry identifiers: every value of a `u16`.
pub const UUID_COUNT: usize = 65536;

/// The store of all live menus, root menus and submenus alike. The menu with
/// handle `h` is the `h`-th one registered; a menu is registered after every
/// submenu it refers to, so a submenu's handle is smaller than its parent's.
/// No two entries of the registry share an identifier; a record of the
/// identifiers in use lets a new entry receive one that no live entry holds.
pub struct MenuRegistry {
    menus: Vec<Menu>,
    used: Vec<bool>,
    free: u32,
    cursor: u16,
}

/// The entries of `items` carry identifiers that differ from each other.
pub open spec fn distinct_uuids(items: Seq<MenuItem>) -> bool {
    forall|k1: int, k2: int|
        0 <= k1 < items.len() && 0 <= k2 < items.len() && #[trigger] items[k1].uuid
            == #[trigger] items[k2].uuid ==> k1 == k2
}

/// The number of `false` among the first `n` values of `s`.
pub open spec fn count_clear(s: Seq<bool>, n: int) -> nat
    decreases n,
{
    if n <= 0 || n > s.len() {
        0
    } else {
        count_clear(s, n - 1) + if s[n - 1] {
            0nat
        } else {
            1nat
        }
    }
}

/// Position `off` places after `start`, counted around the identifiers.
pub open spec fn around(start: int, off: int) -> int {
    if start + off < UUID_COUNT {
        start + off
    } else {
        start + off - UUID_COUNT
    }
}

proof fn lemma_count_set(s: Seq<bool>, i: int, n: int)
    requires
        0 <= i < s.len(),
        0 <= n <= s.len(),
        !s[i],
    ensures
        count_clear(s.update(i, true), n) + (if i < n {
            1nat
        } else {
            0nat
        }) == count_clear(s, n),
    decreases n,
{
    if n > 0 {
        lemma_count_set(s, i, n - 1);
    }
}

pub(crate) proof fn lemma_count_all_set(s: Seq<bool>, n: int)
    requires
        0 <= n <= s.len(),
        forall|i: int| 0 <= i < n ==> #[trigger] s[i],
    ensures
        count_clear(s, n) == 0,
    decreases n,
{
    if n > 0 {
        lemma_count_all_set(s, n - 1);
    }
}

pub(crate) proof fn lemma_count_positive(s: Seq<bool>, i: int, n: int)
    requires
        0 <= i < n <= s.len(),
        !s[i],
    ensures
        count_clear(s, n) > 0,
    decreases n,
{
    if i < n - 1 {
        lemma_count_positive(s, i, n - 1);
    }
}

impl MenuRegistry {
    /// The registered menus, in the order of their handles.
    pub closed spec fn menus(&self) -> Seq<Menu> {
        self.menus@
    }

    /// The record of identifiers in use: one flag per identifier.
    pub closed spec fn used(&self) -> Seq<bool> {
        self.used@
    }

    /// How many identifiers the record shows as not in use.
    pub closed spec fn free_uuid_count(&self) -> nat {
        self.free as nat
    }

    pub open spec fn contains(&self, h: u64) -> bool {
        1 <= h <= self.menus().len()
    }

    /// The menu registered under `h`.
    pub open spec fn menu(&self, h: u64) -> Menu {
        self.menus()[h - 1]
    }

    /// Entry `j` of the `m`-th menu exists.
    pub open spec fn is_entry(&self, m: int, j: int) -> bool {
        0 <= m < self.menus().len() && 0 <= j < self.menus()[m].items@.len()
    }

    /// The identifier of entry `j` of the `m`-th menu.
    pub open spec fn uuid_at(&self, m: int, j: int) -> u16 {
        self.menus()[m].items@[j].uuid
    }

    /// No entry of the registry carries `u`.
    pub open spec fn uuid_free(&self, u: u16) -> bool {
        forall|m: int, j: int| self.is_entry(m, j) ==> #[trigger] self.uuid_at(m, j) != u
    }

    /// The entries `items` could join the registry: their identifiers differ
    /// from each other and from every entry's, and are marked in use.
    pub open spec fn fresh_items(&self, items: Seq<MenuItem>) -> bool {
        &&& forall|k: int|
            0 <= k < items.len() ==> self.uuid_free(#[trigger] items[k].uuid) && self.used()[items[k].uuid as int]
        &&& distinct_uuids(items)
    }

    /// Each menu knows its handle, and each submenu entry refers to a menu
    /// registered before the menu that holds it.
    pub open spec fn links_wf(&self) -> bool {
        forall|i: int|
            #![trigger self.menus()[i]]
            0 <= i < self.menus().len() ==> {
                &&& self.menus()[i].handle == i + 1
                &&& forall|j: int|
                    0 <= j < self.menus()[i].items@.len()
                        ==> (#[trigger] self.menus()[i].items@[j].submenu matches Some(c) ==> 1 <= c
                        <= i)
            }
    }

    /// No two entries share an identifier; the record has one flag per
    /// identifier, counts its clear flags, and clears no flag of an
    /// identifier that an entry holds.
    pub open spec fn uuids_loose(&self) -> bool {
        &&& self.used().len() == UUID_COUNT
        &&& self.free_uuid_count() == count_clear(self.used(), UUID_COUNT as int)
        &&& forall|u: u16| !#[trigger] self.used()[u as int] ==> self.uuid_free(u)
        &&& forall|m1: int, j1: int, m2: int, j2: int|
            self.is_entry(m1, j1) && self.is_entry(m2, j2) && #[trigger] self.uuid_at(m1, j1)
                == #[trigger] self.uuid_at(m2, j2) ==> m1 == m2 && j1 == j2
    }

    /// As `wf`, but the record may show more identifiers in use than entries
    /// hold; so it is while an operation is under way.
    pub open spec fn wf_loose(&self) -> bool {
        &&& self.menus().len() <= usize::MAX
        &&& self.links_wf()
        &&& self.uuids_loose()
    }

    /// The registry is consistent, and the record shows in use exactly the
    /// identifiers that entries hold.
    pub open spec fn wf(&self) -> bool {
        &&& self.wf_loose()
        &&& forall|u: u16| self.uuid_free(u) ==> !#[trigger] self.used()[u as int]
    }

    /// `self` holds every menu of `earlier`, unchanged and under the same handle.
    pub open spec fn extends(&self, earlier: &MenuRegistry) -> bool {
        &&& earlier.menus().len() <= self.menus().len()
        &&& forall|i: int|
            0 <= i < earlier.menus().len() ==> #[trigger] self.menus()[i] == earlier.menus()[i]
    }

    /// Every menu but the one under `h` is the same in `self` as in `earlier`,
    /// and no menu was added or dropped.
    pub open spec fn same_except(&self, earlier: &MenuRegistry, h: u64) -> bool {
        &&& self.menus().len() == earlier.menus().len()
        &&& forall|i: int|
            0 <= i < self.menus().len() && i != h - 1 ==> #[trigger] self.menus()[i]
                == earlier.menus()[i]
    }

    /// Every flag set in `earlier`'s record is set in `self`'s.
    pub open spec fn marks_kept(&self, earlier: &MenuRegistry) -> bool {
        forall|u: u16| #[trigger] earlier.used()[u as int] ==> self.used()[u as int]
    }

    /// An empty registry.
    pub fn new() -> (r: MenuRegistry)
        ensures
            r.wf(),
            r.menus().len() == 0,
            r.free_uuid_count() == UUID_COUNT,
    {
        let mut used: Vec<bool> = Vec::new();
        let mut k: usize = 0;
        while k < UUID_COUNT
            invariant
                0 <= k <= UUID_COUNT,
                used@.len() == k,
                forall|i: int| 0 <= i < k ==> !#[trigger] used@[i],
                count_clear(used@, k as int) == k,
            decreases UUID_COUNT - k,
        {
            let ghost before = used@;
            used.push(false);
            assert(forall|i: int| 0 <= i < k ==> #[trigger] used@[i] == before[i]);
            assert(count_clear(before, k as int) == count_clear(used@, k as int)) by {
                lemma_count_prefix(before, used@, k as int);
            }
            k = k + 1;
        }
        MenuRegistry { menus: Vec::new(), used, free: UUID_COUNT as u32, cursor: 0 }
    }

    /// The number of registered menus.
    pub fn len(&self) -> (n: usize)
        ensures
            n == self.menus().len(),
    {
        self.menus.len()
    }

    /// The menu under `handle`, or `NotFound`.
    pub fn get(&self, handle: u64) -> (r: Result<&Menu, MenuError>)
        ensures
            self.contains(handle) ==> r == Ok::<&Menu, MenuError>(&self.menu(handle)),
            !self.contains(handle) ==> r == Err::<&Menu, MenuError>(MenuError::NotFound),
    {
        if handle >= 1 && handle <= self.menus.len() as u64 {
            Ok(&self.menus[(handle - 1) as usize])
        } else {
            Err(MenuError::NotFound)
        }
    }

    /// An identifier that the record shows as not in use, which it then marks
    /// in use; `None` when the record shows every identifier in use.
    pub(crate) fn fresh_uuid(&mut self) -> (r: Option<u16>)
        requires
            old(self).wf_loose(),
        ensures
            final(self).wf_loose(),
            final(self).menus() == old(self).menus(),
            old(self).free_uuid_count() == 0 ==> r is None && *final(self) == *old(self),
            old(self).free_uuid_count() > 0 ==> (r matches Some(u) && {
                &&& !old(self).used()[u as int]
                &&& old(self).uuid_free(u)
                &&& final(self).used() == old(self).used().update(u as int, true)
                &&& final(self).free_uuid_count() + 1 == old(self).free_uuid_count()
            }),
    {
        if self.free == 0 {
            return None;
        }
        let ghost s = self.used@;
        let start = self.cursor as usize;
        let mut off: usize = 0;
        while off < UUID_COUNT
            invariant
                s == self.used@,
                s.len() == UUID_COUNT,
                0 <= start < UUID_COUNT,
                0 <= off <= UUID_COUNT,
                self.wf_loose(),
                *self == *old(self),
                self.free > 0,
                forall|o: int| 0 <= o < off ==> #[trigger] s[around(start as int, o)],
            decreases UUID_COUNT - off,
        {
            let p = if start + off < UUID_COUNT {
                start + off
            } else {
                start + off - UUID_COUNT
            };
            assert(p == around(start as int, off as int));
            if !self.used[p] {
                let u = p as u16;
                assert(u as int == p);
                self.used[p] = true;
                self.free = self.free - 1;
                self.cursor = if p + 1 < UUID_COUNT {
                    (p + 1) as u16
                } else {
                    0
                };
                proof {
                    lemma_count_set(s, p as int, UUID_COUNT as int);
                    assert(self.used() == s.update(p as int, true));
                    assert(old(self).uuid_free(u));
                    assert(self.menus() == old(self).menus());
                    assert forall|v: u16| !#[trigger] self.used()[v as int] implies self.uuid_free(v) by {
                        assert(v as int != p as int);
                        assert(!s[v as int]);
                        assert(old(self).uuid_free(v));
                        lemma_same_menus_free(old(self), self, v);
                    }
                    assert forall|m1: int, j1: int, m2: int, j2: int|
                        self.is_entry(m1, j1) && self.is_entry(m2, j2) && #[trigger] self.uuid_at(m1, j1)
                            == #[trigger] self.uuid_at(m2, j2) implies m1 == m2 && j1 == j2 by {
                        assert(old(self).uuid_at(m1, j1) == old(self).uuid_at(m2, j2));
                    }
                }
                return Some(u);
            }
            off = off + 1;
        }
        proof {
            assert forall|i: int| 0 <= i < UUID_COUNT implies #[trigger] s[i] by {
                let o = if i >= start { i - start } else { i + UUID_COUNT - start };
                assert(around(start as int, o) == i);
                assert(s[around(start as int, o)]);
            }
            lemma_count_all_set(s, UUID_COUNT as int);
        }
        None
    }

    /// Registers a finished menu under the next handle, which is returned;
    /// `BuildFailed` once no handle is left.
    pub(crate) fn register(&mut self, menu_type: MenuType, theme: Theme, items: Vec<MenuItem>) -> (r: Result<u64, MenuError>)
        requires
            old(self).wf_loose(),
            old(self).fresh_items(items@),
            forall|j: int|
                0 <= j < items@.len() ==> (#[trigger] items@[j].submenu matches Some(c) ==> 1 <= c
                    <= old(self).menus().len()),
        ensures
            final(self).wf_loose(),
            final(self).used() == old(self).used(),
            final(self).free_uuid_count() == old(self).free_uuid_count(),
            match r {
                Ok(h) => {
                    &&& final(self).menus() == old(self).menus().push(
                        Menu { handle: h, menu_type, theme, items },
                    )
                    &&& h == old(self).menus().len() + 1
                },
                Err(e) => {
                    &&& e == MenuError::BuildFailed
                    &&& old(self).menus().len() == usize::MAX
                    &&& final(self).menus() == old(self).menus()
                },
            },
    {
        let n = self.menus.len();
        if n == usize::MAX {
            return Err(MenuError::BuildFailed);
        }
        let h = (n + 1) as u64;
        let ghost added = items@;
        self.menus.push(Menu { handle: h, menu_type, theme, items });
        proof {
            assert(self.menus()[n as int].items@ == added);
            assert forall|i: int|
                #![trigger self.menus()[i]]
                0 <= i < self.menus().len() implies {
                &&& self.menus()[i].handle == i + 1
                &&& forall|j: int|
                    0 <= j < self.menus()[i].items@.len()
                        ==> (#[trigger] self.menus()[i].items@[j].submenu matches Some(c) ==> 1
                        <= c <= i)
            } by {
                if i < n {
                    assert(self.menus()[i] == old(self).menus()[i]);
                }
            }
            lemma_entries_added(old(self), self, n as int, added);
        }
        Ok(h)
    }

    /// Drops every menu registered after the first `len` ones, and brings the
    /// record of identifiers in use up to date.
    pub fn truncate(&mut self, len: usize)
        requires
            old(self).wf_loose(),
            len <= old(self).menus().len(),
        ensures
            final(self).wf(),
            final(self).menus() == old(self).menus().subrange(0, len as int),
    {
        self.menus.truncate(len);
        proof {
            lemma_entries_dropped(old(self), self);
        }
        self.rebuild_uuids();
    }

    /// Takes the entries out of the menu under `handle`, which is left empty
    /// until `replace` gives it entries again.
    pub(crate) fn take_items(&mut self, handle: u64) -> (items: Vec<MenuItem>)
        requires
            old(self).wf_loose(),
            old(self).contains(handle),
        ensures
            final(self).wf_loose(),
            final(self).same_except(old(self), handle),
            final(self).used() == old(self).used(),
            final(self).free_uuid_count() == old(self).free_uuid_count(),
            final(self).fresh_items(items@),
            forall|u: u16| old(self).uuid_free(u) ==> #[trigger] final(self).uuid_free(u),
            items == old(self).menu(handle).items,
            final(self).menu(handle).handle == handle,
            final(self).menu(handle).menu_type == old(self).menu(handle).menu_type,
            final(self).menu(handle).theme == old(self).menu(handle).theme,
            final(self).menu(handle).items@.len() == 0,
    {
        let n = self.menus.len();
        assert(handle <= n);
        let idx = (handle - 1) as usize;
        let mut taken = Menu {
            handle,
            menu_type: self.menus[idx].menu_type,
            theme: self.menus[idx].theme,
            items: Vec::new(),
        };
        std::mem::swap(&mut self.menus[idx], &mut taken);
        proof {
            let ti = idx as int;
            assert(taken == old(self).menus()[ti]);
            assert forall|i: int|
                #![trigger self.menus()[i]]
                0 <= i < self.menus().len() implies {
                &&& self.menus()[i].handle == i + 1
                &&& forall|j: int|
                    0 <= j < self.menus()[i].items@.len()
                        ==> (#[trigger] self.menus()[i].items@[j].submenu matches Some(c) ==> 1
                        <= c <= i)
            } by {
                if i != ti {
                    assert(self.menus()[i] == old(self).menus()[i]);
                }
            }
            assert forall|m: int, j: int| self.is_entry(m, j) implies old(self).is_entry(m, j)
                && #[trigger] self.uuid_at(m, j) == old(self).uuid_at(m, j) by {
                assert(self.menus()[m] == old(self).menus()[m]);
            }
            lemma_entries_dropped(old(self), self);
            assert forall|k: int| 0 <= k < taken.items@.len() implies self.uuid_free(
                #[trigger] taken.items@[k].uuid,
            ) && self.used()[taken.items@[k].uuid as int] by {
                assert(old(self).uuid_at(ti, k) == taken.items@[k].uuid);
                if !old(self).used()[taken.items@[k].uuid as int] {
                    assert(old(self).uuid_free(taken.items@[k].uuid));
                }
                assert forall|m: int, j: int| self.is_entry(m, j) implies #[trigger] self.uuid_at(
                    m,
                    j,
                ) != taken.items@[k].uuid by {
                    assert(self.menus()[m] == old(self).menus()[m]);
                    if old(self).uuid_at(m, j) == old(self).uuid_at(ti, k) {
                        assert(m == ti);
                    }
                }
            }
            assert forall|k1: int, k2: int|
                0 <= k1 < taken.items@.len() && 0 <= k2 < taken.items@.len()
                    && #[trigger] taken.items@[k1].uuid == #[trigger] taken.items@[k2].uuid implies k1
                == k2 by {
                assert(old(self).uuid_at(ti, k1) == old(self).uuid_at(ti, k2));
            }
        }
        taken.items
    }

    /// Gives the menu under `handle`, emptied by `take_items`, the entries
    /// `items` and the theme `theme`.
    pub(crate) fn replace(&mut self, handle: u64, theme: Theme, items: Vec<MenuItem>)
        requires
            old(self).wf_loose(),
            old(self).contains(handle),
            old(self).menu(handle).items@.len() == 0,
            old(self).fresh_items(items@),
            forall|j: int|
                0 <= j < items@.len() ==> (#[trigger] items@[j].submenu matches Some(c) ==> 1 <= c
                    < handle),
        ensures
            final(self).wf_loose(),
            final(self).same_except(old(self), handle),
            final(self).used() == old(self).used(),
            final(self).menu(handle) == (Menu {
                handle,
                menu_type: old(self).menu(handle).menu_type,
                theme,
                items,
            }),
    {
        let n = self.menus.len();
        assert(handle <= n);
        let idx = (handle - 1) as usize;
        let menu_type = self.menus[idx].menu_type;
        let ghost new_items = items@;
        self.menus[idx] = Menu { handle, menu_type, theme, items };
        proof {
            let ti = idx as int;
            assert(self.menus()[ti].items@ == new_items);
            assert forall|i: int|
                #![trigger self.menus()[i]]
                0 <= i < self.menus().len() implies {
                &&& self.menus()[i].handle == i + 1
                &&& forall|j: int|
                    0 <= j < self.menus()[i].items@.len()
                        ==> (#[trigger] self.menus()[i].items@[j].submenu matches Some(c) ==> 1
                        <= c <= i)
            } by {
                if i != ti {
                    assert(self.menus()[i] == old(self).menus()[i]);
                } else {
                    assert forall|j: int| 0 <= j < new_items.len() implies (
                    #[trigger] self.menus()[i].items@[j].submenu matches Some(c) ==> 1 <= c <= i) by {
                        assert(new_items[j].submenu matches Some(c) ==> 1 <= c < handle);
                    }
                }
            }
            lemma_entries_added(old(self), self, ti, new_items);
        }
    }

    /// Brings the record of identifiers in use up to date with the entries:
    /// afterwards it shows in use exactly the identifiers that entries hold.
    pub(crate) fn rebuild_uuids(&mut self)
        requires
            old(self).wf_loose(),
        ensures
            final(self).wf(),
            final(self).menus() == old(self).menus(),
    {
        let mut used: Vec<bool> = Vec::new();
        let mut k: usize = 0;
        while k < UUID_COUNT
            invariant
                0 <= k <= UUID_COUNT,
                used@.len() == k,
                forall|i: int| 0 <= i < k ==> !#[trigger] used@[i],
            decreases UUID_COUNT - k,
        {
            used.push(false);
            k = k + 1;
        }
        let mut m: usize = 0;
        while m < self.menus.len()
            invariant
                self.wf_loose(),
                *self == *old(self),
                0 <= m <= self.menus().len(),
                used@.len() == UUID_COUNT,
                forall|m1: int, j1: int|
                    0 <= m1 < m && self.is_entry(m1, j1) ==> used@[#[trigger] self.uuid_at(m1, j1) as int],
                forall|u: u16| self.uuid_free(u) ==> !#[trigger] used@[u as int],
            decreases self.menus().len() - m,
        {
            let mut j: usize = 0;
            while j < self.menus[m].items.len()
                invariant
                    self.wf_loose(),
                    *self == *old(self),
                    0 <= m < self.menus().len(),
                    0 <= j <= self.menus()[m as int].items@.len(),
                    used@.len() == UUID_COUNT,
                    forall|m1: int, j1: int|
                        (0 <= m1 < m || (m1 == m && j1 < j)) && self.is_entry(m1, j1) ==> used@[
                            #[trigger] self.uuid_at(m1, j1) as int],
                    forall|u: u16| self.uuid_free(u) ==> !#[trigger] used@[u as int],
                decreases self.menus()[m as int].items@.len() - j,
            {
                let u = self.menus[m].items[j].uuid;
                assert(u == self.uuid_at(m as int, j as int));
                used[u as usize] = true;
                proof {
                    assert forall|v: u16| self.uuid_free(v) implies !#[trigger] used@[v as int] by {
                        assert(self.uuid_at(m as int, j as int) != v);
                    }
                }
                j = j + 1;
            }
            m = m + 1;
        }
        let mut free: u32 = 0;
        let mut k: usize = 0;
        while k < UUID_COUNT
            invariant
                0 <= k <= UUID_COUNT,
                used@.len() == UUID_COUNT,
                free == count_clear(used@, k as int),
                free <= k,
            decreases UUID_COUNT - k,
        {
            if !used[k] {
                free = free + 1;
            }
            k = k + 1;
        }
        proof {
            assert forall|u: u16| !#[trigger] used@[u as int] implies self.uuid_free(u) by {
                if !self.uuid_free(u) {
                    let (m1, j1) = choose|m1: int, j1: int|
                        self.is_entry(m1, j1) && #[trigger] self.uuid_at(m1, j1) == u;
                    assert(used@[self.uuid_at(m1, j1) as int]);
                }
            }
        }
        let ghost menus_before = self.menus();
        self.used = used;
        self.free = free;
        proof {
            assert(self.menus() == menus_before);
            assert(self.used() == used@);
            assert forall|u: u16| !#[trigger] self.used()[u as int] implies self.uuid_free(u) by {
                assert(!used@[u as int]);
                assert(old(self).uuid_free(u));
                lemma_same_menus_free(old(self), self, u);
            }
            assert forall|u: u16| self.uuid_free(u) implies !#[trigger] self.used()[u as int] by {
                assert(old(self).menus() == self.menus());
                lemma_same_menus_free(self, old(self), u);
            }
            assert forall|m1: int, j1: int, m2: int, j2: int|
                self.is_entry(m1, j1) && self.is_entry(m2, j2) && #[trigger] self.uuid_at(m1, j1)
                    == #[trigger] self.uuid_at(m2, j2) implies m1 == m2 && j1 == j2 by {
                assert(old(self).uuid_at(m1, j1) == old(self).uuid_at(m2, j2));
            }
        }
    }
}

proof fn lemma_count_prefix(s1: Seq<bool>, s2: Seq<bool>, n: int)
    requires
        0 <= n <= s1.len(),
        n <= s2.len(),
        forall|i: int| 0 <= i < n ==> #[trigger] s2[i] == s1[i],
    ensures
        count_clear(s1, n) == count_clear(s2, n),
    decreases n,
{
    if n > 0 {
        lemma_count_prefix(s1, s2, n - 1);
    }
}

/// Two registries with the same menus leave the same identifiers free.
pub(crate) proof fn lemma_same_menus_free(r1: &MenuRegistry, r2: &MenuRegistry, u: u16)
    requires
        r1.menus() == r2.menus(),
        r1.uuid_free(u),
    ensures
        r2.uuid_free(u),
{
    assert forall|m: int, j: int| r2.is_entry(m, j) implies #[trigger] r2.uuid_at(m, j) != u by {
        assert(r1.is_entry(m, j));
        assert(r1.uuid_at(m, j) == r2.uuid_at(m, j));
    }
}

/// `r1` is `r0` with the entries `added` placed in the menu at position
/// `ti`, which was empty or new; the identifier facts carry over.
proof fn lemma_entries_added(r0: &MenuRegistry, r1: &MenuRegistry, ti: int, added: Seq<MenuItem>)
    requires
        r0.uuids_loose(),
        r0.fresh_items(added),
        r1.used() == r0.used(),
        r1.free_uuid_count() == r0.free_uuid_count(),
        0 <= ti < r1.menus().len(),
        r1.menus().len() == r0.menus().len() || (r1.menus().len() == r0.menus().len() + 1 && ti
            == r0.menus().len()),
        forall|i: int| 0 <= i < r1.menus().len() && i != ti ==> #[trigger] r1.menus()[i] == r0.menus()[i],
        ti < r0.menus().len() ==> r0.menus()[ti].items@.len() == 0,
        r1.menus()[ti].items@ == added,
    ensures
        r1.uuids_loose(),
{
    assert forall|u: u16| !#[trigger] r1.used()[u as int] implies r1.uuid_free(u) by {
        assert(r0.uuid_free(u));
        assert forall|m: int, j: int| r1.is_entry(m, j) implies #[trigger] r1.uuid_at(m, j) != u by {
            if m != ti {
                assert(r1.menus()[m] == r0.menus()[m]);
                assert(r0.is_entry(m, j));
                assert(r0.uuid_at(m, j) != u);
            } else {
                assert(r0.used()[added[j].uuid as int]);
            }
        }
    }
    assert forall|m1: int, j1: int, m2: int, j2: int|
        r1.is_entry(m1, j1) && r1.is_entry(m2, j2) && #[trigger] r1.uuid_at(m1, j1)
            == #[trigger] r1.uuid_at(m2, j2) implies m1 == m2 && j1 == j2 by {
        if m1 != ti && m2 != ti {
            assert(r1.menus()[m1] == r0.menus()[m1]);
            assert(r1.menus()[m2] == r0.menus()[m2]);
            assert(r0.uuid_at(m1, j1) == r0.uuid_at(m2, j2));
        } else if m1 != ti {
            assert(r1.menus()[m1] == r0.menus()[m1]);
            assert(r0.uuid_free(added[j2].uuid));
            assert(r0.uuid_at(m1, j1) != added[j2].uuid);
        } else if m2 != ti {
            assert(r1.menus()[m2] == r0.menus()[m2]);
            assert(r0.uuid_free(added[j1].uuid));
            assert(r0.uuid_at(m2, j2) != added[j1].uuid);
        } else {
            assert(added[j1].uuid == added[j2].uuid);
        }
    }
}

/// `r1` holds only entries of `r0`, at the same places: the identifier facts
/// carry over, and what was free stays free.
proof fn lemma_entries_dropped(r0: &MenuRegistry, r1: &MenuRegistry)
    requires
        r0.uuids_loose(),
        r1.used() == r0.used(),
        r1.free_uuid_count() == r0.free_uuid_count(),
        r1.menus().len() <= r0.menus().len(),
        forall|m: int, j: int| #![trigger r1.is_entry(m, j)] r1.is_entry(m, j) ==> r0.is_entry(m, j),
        forall|m: int, j: int|
            #![trigger r1.uuid_at(m, j)]
            r1.is_entry(m, j) ==> r1.uuid_at(m, j) == r0.uuid_at(m, j),
    ensures
        r1.uuids_loose(),
        forall|u: u16| r0.uuid_free(u) ==> #[trigger] r1.uuid_free(u),
{
    assert forall|u: u16| r0.uuid_free(u) implies #[trigger] r1.uuid_free(u) by {
        assert forall|m: int, j: int| r1.is_entry(m, j) implies #[trigger] r1.uuid_at(m, j) != u by {
            assert(r0.is_entry(m, j));
            assert(r0.uuid_at(m, j) != u);
        }
    }
    assert forall|u: u16| !#[trigger] r1.used()[u as int] implies r1.uuid_free(u) by {
        assert(r0.uuid_free(u));
    }
    assert forall|m1: int, j1: int, m2: int, j2: int|
        r1.is_entry(m1, j1) && r1.is_entry(m2, j2) && #[trigger] r1.uuid_at(m1, j1)
            == #[trigger] r1.uuid_at(m2, j2) implies m1 == m2 && j1 == j2 by {
        assert(r0.uuid_at(m1, j1) == r0.uuid_at(m2, j2));
    }
}

/// Entries fresh for a registry stay fresh once it has grown by menus whose
/// entries carry identifiers that its record showed as not in use.
pub proof fn lemma_fresh_kept(r1: &MenuRegistry, r2: &MenuRegistry, items: Seq<MenuItem>)
    requires
        r1.fresh_items(items),
        r2.extends(r1),
        r2.marks_kept(r1),
        forall|m: int, j: int|
            r1.menus().len() <= m && r2.is_entry(m, j) ==> !r1.used()[#[trigger] r2.uuid_at(m, j) as int],
    ensures
        r2.fresh_items(items),
{
    assert forall|k: int| 0 <= k < items.len() implies r2.uuid_free(#[trigger] items[k].uuid)
        && r2.used()[items[k].uuid as int] by {
        assert forall|m: int, j: int| r2.is_entry(m, j) implies #[trigger] r2.uuid_at(m, j)
            != items[k].uuid by {
            if m < r1.menus().len() {
                assert(r2.menus()[m] == r1.menus()[m]);
                assert(r1.uuid_at(m, j) != items[k].uuid);
            }
        }
    }
}

} // verus!
