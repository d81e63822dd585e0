//! The queue monitor's decisions: how a key press moves the selection,
//! opens or closes an item's detail, scrolls, or asks for an item to be
//! requeued, and how the selection follows a refreshed list.
use vstd::prelude::*;
use crate::queue::{ItemStatus, ItemView, QueueItem, items_view};

verus! {

/// The detail view scrolls at most this many lines down.
pub const MAX_DETAIL_SCROLL: u16 = 500;

/// A key press, as the monitor tells keys apart.
#[derive(Debug, Clone, Copy, PartialEq, Eq, Structural)]
pub enum Key {
    /// `q`
    Quit,
    /// Escape
    Esc,
    /// `r`: refresh now.
    Refresh,
    /// Arrow up
    Up,
    /// Arrow down
    Down,
    /// Enter
    Enter,
    /// `R`: requeue the item in view.
    Retry,
    /// Any other key.
    Other,
}

/// What the monitor asks of its runner after a key press.
#[derive(Debug, Clone, Copy, PartialEq, Eq, Structural)]
pub enum MonitorAction {
    /// Nothing beyond redrawing.
    Stay,
    /// Leave the monitor.
    Quit,
    /// Requeue the item with this id, then report how that went.
    Requeue(i64),
}

/// The monitor's state: the table's selection, the item whose detail is
/// open (if any), the detail's scroll offset, and whether the list must be
/// reloaded before the next draw.
pub struct Monitor {
    pub selected: Option<usize>,
    pub detail: Option<QueueItem>,
    pub scroll: u16,
    pub refresh_due: bool,
}

/// The monitor's state as plain values.
pub struct MonitorView {
    pub selected: Option<usize>,
    pub detail: Option<ItemView>,
    pub scroll: u16,
    pub refresh_due: bool,
}

impl View for Monitor {
    type V = MonitorView;

    open spec fn view(&self) -> MonitorView {
        MonitorView {
            selected: self.selected,
            detail: match self.detail {
                Some(it) => Some(it@),
                None => None,
            },
            scroll: self.scroll,
            refresh_due: self.refresh_due,
        }
    }
}

/// Whether an item's detail can be opened: it has finished, one way or
/// another.
pub open spec fn has_detail(s: ItemStatus) -> bool {
    s == ItemStatus::Complete || s == ItemStatus::Error || s == ItemStatus::Rejected
}

/// Whether an item can be requeued from the monitor.
pub open spec fn retryable(s: ItemStatus) -> bool {
    s == ItemStatus::Error || s == ItemStatus::Rejected
}

/// The selection after arrow up: one row higher, stopping at the first.
pub open spec fn selection_up(sel: Option<usize>, len: nat) -> Option<usize> {
    if len == 0 {
        sel
    } else {
        match sel {
            Some(i) => if i == 0 {
                Some(0usize)
            } else {
                Some((i - 1) as usize)
            },
            None => Some(0usize),
        }
    }
}

/// The selection after arrow down: one row lower, stopping at the last.
pub open spec fn selection_down(sel: Option<usize>, len: nat) -> Option<usize> {
    if len == 0 {
        sel
    } else {
        match sel {
            Some(i) => if i + 1 < len {
                Some((i + 1) as usize)
            } else {
                Some((len - 1) as usize)
            },
            None => Some(0usize),
        }
    }
}

/// The selected row, when the selection points at one.
pub open spec fn selected_row(sel: Option<usize>, items: Seq<ItemView>) -> Option<ItemView> {
    match sel {
        Some(i) => if i < items.len() {
            Some(items[i as int])
        } else {
            None
        },
        None => None,
    }
}

/// The state after a key press and what the runner is asked to do, with
/// `items` the rows the table shows.
pub open spec fn key_step(m: MonitorView, key: Key, items: Seq<ItemView>) -> (
    MonitorView,
    MonitorAction,
) {
    match m.detail {
        None => match key {
            Key::Quit | Key::Esc => (m, MonitorAction::Quit),
            Key::Refresh => (MonitorView { refresh_due: true, ..m }, MonitorAction::Stay),
            Key::Up => (
                MonitorView { selected: selection_up(m.selected, items.len()), ..m },
                MonitorAction::Stay,
            ),
            Key::Down => (
                MonitorView { selected: selection_down(m.selected, items.len()), ..m },
                MonitorAction::Stay,
            ),
            Key::Enter => match selected_row(m.selected, items) {
                Some(it) => if has_detail(it.status) {
                    (MonitorView { detail: Some(it), scroll: 0, ..m }, MonitorAction::Stay)
                } else {
                    (m, MonitorAction::Stay)
                },
                None => (m, MonitorAction::Stay),
            },
            Key::Retry => match selected_row(m.selected, items) {
                Some(it) => if retryable(it.status) {
                    (MonitorView { refresh_due: true, ..m }, MonitorAction::Requeue(it.id))
                } else {
                    (m, MonitorAction::Stay)
                },
                None => (m, MonitorAction::Stay),
            },
            Key::Other => (m, MonitorAction::Stay),
        },
        Some(d) => match key {
            Key::Esc | Key::Enter | Key::Quit => (
                MonitorView { detail: None, refresh_due: true, ..m },
                MonitorAction::Stay,
            ),
            Key::Retry => if retryable(d.status) {
                (
                    MonitorView { detail: None, refresh_due: true, ..m },
                    MonitorAction::Requeue(d.id),
                )
            } else {
                (m, MonitorAction::Stay)
            },
            Key::Up => (
                MonitorView {
                    scroll: if m.scroll > 0 {
                        (m.scroll - 1) as u16
                    } else {
                        0u16
                    },
                    ..m
                },
                MonitorAction::Stay,
            ),
            Key::Down => (
                MonitorView {
                    scroll: if m.scroll < MAX_DETAIL_SCROLL {
                        (m.scroll + 1) as u16
                    } else {
                        MAX_DETAIL_SCROLL
                    },
                    ..m
                },
                MonitorAction::Stay,
            ),
            Key::Refresh | Key::Other => (m, MonitorAction::Stay),
        },
    }
}

/// The selection once the table shows `len` rows: dropped when there are
/// none, moved to the last row when it points past the end.
pub open spec fn clamped_selection(sel: Option<usize>, len: nat) -> Option<usize> {
    match sel {
        Some(i) => if len == 0 {
            None
        } else if i >= len {
            Some((len - 1) as usize)
        } else {
            Some(i)
        },
        None => None,
    }
}

/// Whether `s` allows opening a detail.
fn opens_detail(s: ItemStatus) -> (r: bool)
    ensures
        r == has_detail(s),
{
    match s {
        ItemStatus::Complete | ItemStatus::Error | ItemStatus::Rejected => true,
        _ => false,
    }
}

/// Whether `s` allows a requeue.
fn can_retry(s: ItemStatus) -> (r: bool)
    ensures
        r == retryable(s),
{
    match s {
        ItemStatus::Error | ItemStatus::Rejected => true,
        _ => false,
    }
}

impl Monitor {
    /// The table view with nothing selected, due for a first load.
    pub fn new() -> (r: Self)
        ensures
            r@ == (MonitorView { selected: None, detail: None, scroll: 0, refresh_due: true }),
    {
        Monitor { selected: None, detail: None, scroll: 0, refresh_due: true }
    }

    /// Handles one key press against the rows the table shows.
    pub fn on_key(&mut self, key: Key, items: &Vec<QueueItem>) -> (r: MonitorAction)
        ensures
            (final(self)@, r) == key_step(old(self)@, key, items_view(items@)),
    {
        let ghost iv = items_view(items@);
        assert(iv.len() == items@.len());
        if self.detail.is_none() {
            match key {
                Key::Quit | Key::Esc => MonitorAction::Quit,
                Key::Refresh => {
                    self.refresh_due = true;
                    MonitorAction::Stay
                },
                Key::Up => {
                    if items.len() > 0 {
                        self.selected = match self.selected {
                            Some(i) => if i == 0 {
                                Some(0)
                            } else {
                                Some(i - 1)
                            },
                            None => Some(0),
                        };
                    }
                    MonitorAction::Stay
                },
                Key::Down => {
                    if items.len() > 0 {
                        self.selected = match self.selected {
                            Some(i) => if i < items.len() - 1 {
                                Some(i + 1)
                            } else {
                                Some(items.len() - 1)
                            },
                            None => Some(0),
                        };
                    }
                    MonitorAction::Stay
                },
                Key::Enter => {
                    match self.selected {
                        Some(i) => {
                            if i < items.len() {
                                assert(iv[i as int] == items@[i as int]@);
                                if opens_detail(items[i].status) {
                                    self.detail = Some(items[i].duplicate());
                                    self.scroll = 0;
                                }
                            }
                        },
                        None => {},
                    }
                    MonitorAction::Stay
                },
                Key::Retry => {
                    match self.selected {
                        Some(i) => {
                            if i < items.len() {
                                assert(iv[i as int] == items@[i as int]@);
                                if can_retry(items[i].status) {
                                    self.refresh_due = true;
                                    return MonitorAction::Requeue(items[i].id);
                                }
                            }
                            MonitorAction::Stay
                        },
                        None => MonitorAction::Stay,
                    }
                },
                Key::Other => MonitorAction::Stay,
            }
        } else {
            let (status, id) = match &self.detail {
                Some(d) => (d.status, d.id),
                None => (ItemStatus::Queued, 0),
            };
            match key {
                Key::Esc | Key::Enter | Key::Quit => {
                    self.detail = None;
                    self.refresh_due = true;
                    MonitorAction::Stay
                },
                Key::Retry => {
                    if can_retry(status) {
                        self.detail = None;
                        self.refresh_due = true;
                        MonitorAction::Requeue(id)
                    } else {
                        MonitorAction::Stay
                    }
                },
                Key::Up => {
                    self.scroll = if self.scroll > 0 {
                        self.scroll - 1
                    } else {
                        0
                    };
                    MonitorAction::Stay
                },
                Key::Down => {
                    self.scroll = if self.scroll < MAX_DETAIL_SCROLL {
                        self.scroll + 1
                    } else {
                        MAX_DETAIL_SCROLL
                    };
                    MonitorAction::Stay
                },
                Key::Refresh | Key::Other => MonitorAction::Stay,
            }
        }
    }

    /// The table now shows `len` rows: the selection follows, and no
    /// reload is due.
    pub fn on_refresh(&mut self, len: usize)
        ensures
            final(self)@ == (MonitorView {
                selected: clamped_selection(old(self)@.selected, len as nat),
                refresh_due: false,
                ..old(self)@
            }),
    {
        self.selected = match self.selected {
            Some(i) => if len == 0 {
                None
            } else if i >= len {
                Some(len - 1)
            } else {
                Some(i)
            },
            None => None,
        };
        self.refresh_due = false;
    }
}

/// A selection that points into the table still does after any key press,
/// and after any reload.
pub proof fn law_selection_stays_in_table(m: MonitorView, key: Key, items: Seq<ItemView>, len: nat)
    requires
        m.selected matches Some(i) ==> i < items.len(),
    ensures
        key_step(m, key, items).0.selected matches Some(i) ==> i < items.len(),
        clamped_selection(m.selected, len) matches Some(i) ==> i < len,
{
}

/// The monitor asks for a requeue only of the item whose detail is open,
/// or of the selected row when no detail is open, and only when that item
/// is in `error` or `rejected`.
pub proof fn law_requeue_only_retryable(m: MonitorView, key: Key, items: Seq<ItemView>, id: i64)
    requires
        key_step(m, key, items).1 == MonitorAction::Requeue(id),
    ensures
        match m.detail {
            Some(d) => d.id == id && retryable(d.status),
            None => selected_row(m.selected, items) matches Some(it) && it.id == id && retryable(
                it.status,
            ),
        },
{
}

/// The monitor is left only from the table, by `q` or Escape; in the
/// detail view those keys go back to the table.
pub proof fn law_quit_only_from_table(m: MonitorView, key: Key, items: Seq<ItemView>)
    requires
        key_step(m, key, items).1 == MonitorAction::Quit,
    ensures
        m.detail is None,
        key == Key::Quit || key == Key::Esc,
        key_step(m, key, items).0 == m,
{
}

} // verus!
