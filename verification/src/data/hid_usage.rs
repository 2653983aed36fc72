//! HID usage pages, and the lookup of the usage that a scancode stands for.

use vstd::prelude::*;

use crate::event::EventValue;

verus! {

#[derive(Clone, Debug)]
pub struct HidPage {
    pub id: u16,
    pub name: String,
    pub usages: Vec<HidUsage>,
}

#[derive(Clone, Debug)]
pub struct HidUsage {
    pub id: u16,
    pub name: String,
}

/// A usage, as plain values.
pub struct UsageView {
    pub id: u16,
    pub name: Seq<char>,
}

/// A page, as plain values.
pub struct PageView {
    pub id: u16,
    pub name: Seq<char>,
    pub usages: Seq<UsageView>,
}

impl View for HidUsage {
    type V = UsageView;

    open spec fn view(&self) -> UsageView {
        UsageView { id: self.id, name: self.name@ }
    }
}

impl View for HidPage {
    type V = PageView;

    open spec fn view(&self) -> PageView {
        PageView { id: self.id, name: self.name@, usages: self.usages@.map_values(|u: HidUsage| u@) }
    }
}

/// Returned from `get_usage_from_scancode()`.
pub struct UsageInfo {
    pub page_id: u16,
    pub usage_id: u16,
    pub names: UsageNames,
}

pub enum UsageNames {
    /// We do not know anything about the usage of this scancode.
    Unknown,
    /// We know to which page this scancode belongs.
    PageKnown { page_name: String },
    /// We know both the page and usage of this scancode.
    Known { page_name: String, usage_name: String },
}

pub enum UsagePagesState {
    /// The user either doesn't have the necessary packages installed, or we failed to load the pages.
    NotAvailable,
    /// The HID usage pages were found
    Available(Vec<HidPage>),
}

/// The index of the first page with the given id, if any.
pub open spec fn first_page_with(pages: Seq<PageView>, id: u16) -> Option<int> {
    if exists|i: int| 0 <= i < pages.len() && (#[trigger] pages[i]).id == id {
        Some(choose|i: int| 0 <= i < pages.len() && (#[trigger] pages[i]).id == id
            && forall|j: int| 0 <= j < i ==> pages[j].id != id)
    } else {
        None
    }
}

/// The index of the first usage with the given id, if any.
pub open spec fn first_usage_with(usages: Seq<UsageView>, id: u16) -> Option<int> {
    if exists|i: int| 0 <= i < usages.len() && (#[trigger] usages[i]).id == id {
        Some(choose|i: int| 0 <= i < usages.len() && (#[trigger] usages[i]).id == id
            && forall|j: int| 0 <= j < i ==> usages[j].id != id)
    } else {
        None
    }
}

/// The page of a scancode: its upper sixteen bits.
pub open spec fn scancode_page(scancode: EventValue) -> u16 {
    ((scancode as u32) / 0x10000) as u16
}

/// The usage of a scancode within its page: its lower sixteen bits.
pub open spec fn scancode_usage(scancode: EventValue) -> u16 {
    ((scancode as u32) % 0x10000) as u16
}

fn first_page_index(pages: &Vec<HidPage>, id: u16) -> (res: Option<usize>)
    ensures
        match res {
            Some(i) => first_page_with(pages@.map_values(|p: HidPage| p@), id) == Some(i as int) && i < pages@.len(),
            None => first_page_with(pages@.map_values(|p: HidPage| p@), id) is None,
        },
{
    let ghost views = pages@.map_values(|p: HidPage| p@);
    let mut i: usize = 0;
    while i < pages.len()
        invariant
            i <= pages@.len(),
            views == pages@.map_values(|p: HidPage| p@),
            forall|j: int| 0 <= j < i ==> (#[trigger] views[j]).id != id,
        decreases pages@.len() - i,
    {
        proof {
            assert(views[i as int].id == pages@[i as int].id);
        }
        if pages[i].id == id {
            proof {
                let k = choose|k: int| 0 <= k < views.len() && (#[trigger] views[k]).id == id
                    && forall|j: int| 0 <= j < k ==> views[j].id != id;
                assert(views[i as int].id == id);
                if k < i {
                    assert(views[k].id != id);
                }
                if k > i {
                    assert(views[i as int].id != id);
                }
            }
            return Some(i);
        }
        i += 1;
    }
    None
}

fn first_usage_index(usages: &Vec<HidUsage>, id: u16) -> (res: Option<usize>)
    ensures
        match res {
            Some(i) => first_usage_with(usages@.map_values(|u: HidUsage| u@), id) == Some(i as int) && i < usages@.len(),
            None => first_usage_with(usages@.map_values(|u: HidUsage| u@), id) is None,
        },
{
    let ghost views = usages@.map_values(|u: HidUsage| u@);
    let mut i: usize = 0;
    while i < usages.len()
        invariant
            i <= usages@.len(),
            views == usages@.map_values(|u: HidUsage| u@),
            forall|j: int| 0 <= j < i ==> (#[trigger] views[j]).id != id,
        decreases usages@.len() - i,
    {
        proof {
            assert(views[i as int].id == usages@[i as int].id);
        }
        if usages[i].id == id {
            proof {
                let k = choose|k: int| 0 <= k < views.len() && (#[trigger] views[k]).id == id
                    && forall|j: int| 0 <= j < k ==> views[j].id != id;
                assert(views[i as int].id == id);
                if k < i {
                    assert(views[k].id != id);
                }
                if k > i {
                    assert(views[i as int].id != id);
                }
            }
            return Some(i);
        }
        i += 1;
    }
    None
}

impl UsagePagesState {
    /// Assumes that a scancode is composed of a HID usage page and a HID usage value as defined
    /// by the USB specification, and looks up the names of the usage page and usage value; where
    /// a page or usage id occurs more than once, the first is taken.
    ///
    /// Returns None if the usage pages have not been loaded.
    pub fn get_usage_from_scancode(&self, scancode: EventValue) -> (res: Option<UsageInfo>)
        ensures
            match self {
                UsagePagesState::NotAvailable => res is None,
                UsagePagesState::Available(pages) => {
                    let views = pages@.map_values(|p: HidPage| p@);
                    res matches Some(info) && info.page_id == scancode_page(scancode)
                        && info.usage_id == scancode_usage(scancode)
                        && match first_page_with(views, info.page_id) {
                            None => info.names is Unknown,
                            Some(p) => match first_usage_with(views[p].usages, info.usage_id) {
                                None => info.names matches UsageNames::PageKnown { page_name } && page_name@ == views[p].name,
                                Some(u) => info.names matches UsageNames::Known { page_name, usage_name }
                                    && page_name@ == views[p].name && usage_name@ == views[p].usages[u].name,
                            },
                        }
                },
            },
    {
        let scancode_u32 = scancode as u32;
        let page_id: u16 = (scancode_u32 / 0x10000) as u16;
        let usage_id: u16 = (scancode_u32 % 0x10000) as u16;
        let pages = match self {
            UsagePagesState::NotAvailable => return None,
            UsagePagesState::Available(pages) => pages,
        };
        let ghost views = pages@.map_values(|p: HidPage| p@);
        match first_page_index(pages, page_id) {
            None => Some(UsageInfo { page_id, usage_id, names: UsageNames::Unknown }),
            Some(page_idx) => {
                let page = &pages[page_idx];
                proof {
                    assert(views[page_idx as int] == page@);
                }
                match first_usage_index(&page.usages, usage_id) {
                    None => Some(UsageInfo { page_id, usage_id, names: UsageNames::PageKnown { page_name: page.name.clone() } }),
                    Some(usage_idx) => {
                        proof {
                            assert(page@.usages[usage_idx as int] == page.usages@[usage_idx as int]@);
                        }
                        Some(UsageInfo {
                            page_id,
                            usage_id,
                            names: UsageNames::Known {
                                page_name: page.name.clone(),
                                usage_name: page.usages[usage_idx].name.clone(),
                            },
                        })
                    },
                }
            },
        }
    }
}

} // verus!
