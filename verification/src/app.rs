//! The application core: one owned state structure and the input-mode state
//! machine that drives it. Key, mouse and paste events go in; state changes
//! happen here; mutations come back out as plain actions for the
//! surrounding loop to execute against the mutation backend.

use vstd::prelude::*;
use crate::bead::{Bead, BeadStatus, BeadType};
use crate::detail::DetailState;
use crate::diff::{diff_updates, fu_view, diff_spec, FieldUpdate};
use crate::input::TextInput;
use crate::keys::{KeyCode, KeyEvent, MouseEvent, MouseKind};
use crate::layout::{
    on_split_handle, on_split_handle_spec, split_from_mouse, split_from_mouse_spec, Focus, Rect,
    MAX_SPLIT_PERCENT, MIN_SPLIT_PERCENT,
};
use crate::list::BeadListState;
use crate::modal::{labels_of, CreateModal, ModalAction};
use crate::order::{build_tree_order, tree_order};
use crate::text::{is_blank, str_eq};

verus! {

/// Which component currently owns keystrokes.
#[derive(Debug, Clone, Copy, PartialEq, Eq, Structural)]
pub enum InputMode {
    Normal,
    Search,
    Creating,
    Editing,
    ClosingBead,
    ReopeningBead,
    AddingComment,
}

/// How many themes the application cycles through.
pub const THEME_COUNT: usize = 4;

/// What the surrounding loop must do after an event was handled.
pub enum AppAction {
    /// Nothing to do.
    Idle,
    /// Suspend the process, restoring the terminal around it.
    Suspend,
    /// Reload the collection from the store.
    Refresh,
    /// Create a bead, then attach each label to the new id, then reload.
    SubmitCreate {
        title: String,
        description: Option<String>,
        bead_type: BeadType,
        priority: u8,
        labels: Vec<String>,
    },
    /// Apply each field update to the bead, then reload.
    SubmitUpdate { id: String, updates: Vec<FieldUpdate> },
    /// Close the bead with an optional reason, then reload.
    CloseBead { id: String, reason: Option<String> },
    /// Reopen the bead and, when present, record the comment, then reload.
    ReopenBead { id: String, comment: Option<String> },
    /// Add the comment to the bead, then reload.
    AddComment { id: String, text: String },
    /// Set the bead's status to the given name, then reload.
    UpdateStatus { id: String, status: String },
}

/// The application state.
pub struct App {
    /// All loaded beads, in load order.
    pub beads: Vec<Bead>,
    /// List selection.
    pub list_state: BeadListState,
    /// Detail panel scroll.
    pub detail_state: DetailState,
    /// Current theme index.
    pub theme_idx: usize,
    /// Focused pane.
    pub focus: Focus,
    /// Left pane width, in percent.
    pub split_percent: u16,
    /// Current input mode.
    pub input_mode: InputMode,
    /// Search / filter input.
    pub search_input: TextInput,
    /// Create / edit form.
    pub create_modal: CreateModal,
    /// Id of the bead being edited, if any.
    pub editing_bead_id: Option<String>,
    /// Reason input for closing or reopening.
    pub reason_input: TextInput,
    /// Comment input.
    pub comment_input: TextInput,
    /// Show labels in the list.
    pub show_labels: bool,
    /// Show the help overlay.
    pub show_help: bool,
    /// Hide closed beads.
    pub hide_closed: bool,
    /// Show the detail pane.
    pub show_detail: bool,
    /// The loop should exit.
    pub should_quit: bool,
    /// Last rendered list rectangle, for mouse hit testing.
    pub list_area: Rect,
    /// Last rendered detail rectangle, for mouse hit testing.
    pub detail_area: Rect,
    /// A split drag is in progress.
    pub split_resize_active: bool,
}

impl App {
    /// The active filter, as the view builder sees it.
    pub open spec fn filter_spec(self) -> Option<Seq<char>> {
        if self.search_input.text_seq().len() == 0 {
            None
        } else {
            Some(self.search_input.text_seq())
        }
    }

    /// The display order the current state denotes.
    pub open spec fn current_view(self) -> Seq<(usize, usize)> {
        tree_order(self.beads@, self.hide_closed, self.filter_spec())
    }

    /// The selection, when set, points inside the current display order.
    pub open spec fn sel_ok(self) -> bool {
        match self.list_state.sel() {
            Some(i) => (i as int) < self.current_view().len(),
            None => true,
        }
    }

    /// All text buffers are well formed, the theme index is in range, and
    /// the selection is in range.
    pub open spec fn inv(self) -> bool {
        self.search_input.wf() && self.reason_input.wf() && self.comment_input.wf()
            && self.create_modal.wf() && self.theme_idx < THEME_COUNT && self.sel_ok()
    }

    /// A fresh application over a loaded collection: list focused, closed
    /// beads hidden, labels shown, the first row selected when there is one.
    pub fn new(beads: Vec<Bead>) -> (r: App)
        ensures
            r.inv(),
            r.beads == beads,
            r.theme_idx == 0,
            r.focus == Focus::List,
            r.split_percent == 40u16,
            r.input_mode == InputMode::Normal,
            r.search_input.text_seq() == Seq::<char>::empty(),
            r.editing_bead_id is None,
            r.show_labels,
            !r.show_help,
            r.hide_closed,
            !r.show_detail,
            !r.should_quit,
            !r.split_resize_active,
            r.current_view().len() > 0 ==> r.list_state.sel() == Some(0usize),
            r.current_view().len() == 0 ==> r.list_state.sel() is None,
    {
        let mut app = App {
            beads,
            list_state: BeadListState::new(),
            detail_state: DetailState::new(),
            theme_idx: 0,
            focus: Focus::List,
            split_percent: 40,
            input_mode: InputMode::Normal,
            search_input: TextInput::new(),
            create_modal: CreateModal::new(),
            editing_bead_id: None,
            reason_input: TextInput::new(),
            comment_input: TextInput::new(),
            show_labels: true,
            show_help: false,
            hide_closed: true,
            show_detail: false,
            should_quit: false,
            list_area: Rect::zero(),
            detail_area: Rect::zero(),
            split_resize_active: false,
        };
        let len = app.filtered_len();
        if len == 0 {
            app.list_state.select(None);
        } else {
            app.list_state.select(Some(0));
        }
        app
    }

    /// How many rows the current display order has.
    pub fn filtered_len(&self) -> (r: usize)
        ensures
            r == self.current_view().len(),
    {
        let filter = self.filter();
        let order = match &filter {
            None => build_tree_order(&self.beads, self.hide_closed, None),
            Some(f) => build_tree_order(&self.beads, self.hide_closed, Some(f.as_str())),
        };
        order.len()
    }

    /// The current display order, as (index, depth) pairs.
    pub fn view_order(&self) -> (r: Vec<(usize, usize)>)
        ensures
            r@ == self.current_view(),
            forall|k: int| 0 <= k < r@.len() ==> ((#[trigger] r@[k]).0 as int) < self.beads@.len(),
    {
        let filter = self.filter();
        match &filter {
            None => build_tree_order(&self.beads, self.hide_closed, None),
            Some(f) => build_tree_order(&self.beads, self.hide_closed, Some(f.as_str())),
        }
    }

    /// The active filter text, if the search buffer is non-empty.
    pub fn filter(&self) -> (r: Option<String>)
        ensures
            self.filter_spec() is None ==> r is None,
            self.filter_spec() is Some ==> r is Some && r->0@ == self.filter_spec()->0,
    {
        if self.search_input.is_empty() {
            None
        } else {
            Some(self.search_input.text())
        }
    }

    /// The bead index the selection points at, if any.
    pub fn selected_bead_index(&self) -> (r: Option<usize>)
        ensures
            r == (match self.list_state.sel() {
                Some(i) => if (i as int) < self.current_view().len() {
                    Some(self.current_view()[i as int].0)
                } else {
                    None::<usize>
                },
                None => None::<usize>,
            }),
            r is Some ==> (r->0 as int) < self.beads@.len(),
    {
        match self.list_state.selected() {
            None => None,
            Some(i) => {
                let order = self.view_order();
                if i < order.len() {
                    Some(order[i].0)
                } else {
                    None
                }
            },
        }
    }

    /// Clamp the selection to the current display order: keep it when it is
    /// in range, move it to the last row when it fell off the end, clear it
    /// when the view is empty.
    fn clamp_selection(&mut self)
        ensures
            *final(self) == (App { list_state: final(self).list_state, ..*old(self) }),
            final(self).sel_ok(),
            final(self).list_state.sel() == (match old(self).list_state.sel() {
                Some(i) => if old(self).current_view().len() == 0 {
                    None::<usize>
                } else if (i as int) < old(self).current_view().len() {
                    Some(i)
                } else {
                    Some((old(self).current_view().len() - 1) as usize)
                },
                None => None::<usize>,
            }),
    {
        let len = self.filtered_len();
        match self.list_state.selected() {
            None => {},
            Some(i) => {
                if len == 0 {
                    self.list_state.select(None);
                } else if i >= len {
                    self.list_state.select(Some(len - 1));
                }
            },
        }
    }

    /// Select the first row, or nothing when the view is empty.
    fn select_first_clamped(&mut self)
        ensures
            *final(self) == (App { list_state: final(self).list_state, ..*old(self) }),
            final(self).sel_ok(),
            final(self).list_state.sel() == (if old(self).current_view().len() == 0 {
                None::<usize>
            } else {
                Some(0usize)
            }),
    {
        let len = self.filtered_len();
        if len == 0 {
            self.list_state.select(None);
        } else {
            self.list_state.select(Some(0));
        }
    }

    /// Replace the collection after a reload; the selection is clamped to
    /// the new display order, index-based as before.
    pub fn set_beads(&mut self, beads: Vec<Bead>)
        requires
            old(self).inv(),
        ensures
            final(self).inv(),
            final(self).beads == beads,
            *final(self) == (App {
                beads: final(self).beads,
                list_state: final(self).list_state,
                ..*old(self)
            }),
            final(self).list_state.sel() == (match old(self).list_state.sel() {
                Some(i) => if final(self).current_view().len() == 0 {
                    None::<usize>
                } else if (i as int) < final(self).current_view().len() {
                    Some(i)
                } else {
                    Some((final(self).current_view().len() - 1) as usize)
                },
                None => None::<usize>,
            }),
    {
        self.beads = beads;
        self.clamp_selection();
    }

    /// Move the list selection up `n` rows, stopping at the top.
    pub fn scroll_up_list(&mut self, n: usize)
        requires
            old(self).inv(),
        ensures
            final(self).inv(),
            *final(self) == (App { list_state: final(self).list_state, ..*old(self) }),
            old(self).current_view().len() == 0 ==> final(self).list_state == old(self).list_state,
            old(self).current_view().len() > 0 ==> final(self).list_state.sel() == Some(
                ({
                    let cur = match old(self).list_state.sel() {
                        Some(i) => i,
                        None => 0usize,
                    };
                    if cur >= n {
                        (cur - n) as usize
                    } else {
                        0usize
                    }
                }),
            ),
    {
        let len = self.filtered_len();
        if len == 0 {
            return;
        }
        let cur = match self.list_state.selected() {
            Some(i) => i,
            None => 0,
        };
        let new_pos = if cur >= n {
            cur - n
        } else {
            0
        };
        self.list_state.select(Some(new_pos));
    }

    /// Move the list selection down `n` rows, stopping at the last row.
    pub fn scroll_down_list(&mut self, n: usize)
        requires
            old(self).inv(),
        ensures
            final(self).inv(),
            *final(self) == (App { list_state: final(self).list_state, ..*old(self) }),
            old(self).current_view().len() == 0 ==> final(self).list_state == old(self).list_state,
            old(self).current_view().len() > 0 ==> final(self).list_state.sel() == Some(
                ({
                    let len = old(self).current_view().len() as int;
                    let cur = match old(self).list_state.sel() {
                        Some(i) => i as int,
                        None => 0int,
                    };
                    if cur + n <= len - 1 {
                        (cur + n) as usize
                    } else {
                        (len - 1) as usize
                    }
                }),
            ),
    {
        let len = self.filtered_len();
        if len == 0 {
            return;
        }
        let cur = match self.list_state.selected() {
            Some(i) => i,
            None => 0,
        };
        let cap = len - 1;
        let room = cap - (if cur <= cap {
            cur
        } else {
            cap
        });
        let new_pos = if cur > cap {
            cap
        } else if n <= room {
            cur + n
        } else {
            cap
        };
        self.list_state.select(Some(new_pos));
    }
}

/// The selection after a wrapping step over a list of length `len`.
pub open spec fn wrap_next(sel: Option<usize>, len: int) -> Option<usize> {
    if len == 0 {
        sel
    } else {
        Some(
            match sel {
                Some(i) => if i >= len - 1 {
                    0usize
                } else {
                    (i + 1) as usize
                },
                None => 0usize,
            },
        )
    }
}

/// The selection after a wrapping step backward.
pub open spec fn wrap_prev(sel: Option<usize>, len: int) -> Option<usize> {
    if len == 0 {
        sel
    } else {
        Some(
            match sel {
                Some(i) => if i == 0 {
                    (len - 1) as usize
                } else {
                    (i - 1) as usize
                },
                None => 0usize,
            },
        )
    }
}

/// The selection after a page move of `n` rows, clamped at the ends.
pub open spec fn page_move(sel: Option<usize>, len: int, n: int, down: bool) -> Option<usize> {
    if len == 0 {
        sel
    } else {
        let cur = match sel {
            Some(i) => i as int,
            None => 0int,
        };
        if down {
            if cur + n <= len - 1 {
                Some((cur + n) as usize)
            } else {
                Some((len - 1) as usize)
            }
        } else {
            if cur - n >= 0 {
                Some((cur - n) as usize)
            } else {
                Some(0usize)
            }
        }
    }
}

/// The selection clamped to a view of length `len`.
pub open spec fn clamped_sel(sel: Option<usize>, len: int) -> Option<usize> {
    match sel {
        Some(i) => if len == 0 {
            None::<usize>
        } else if (i as int) < len {
            Some(i)
        } else {
            Some((len - 1) as usize)
        },
        None => None::<usize>,
    }
}

/// A split percentage nudged by `delta` and clamped to the allowed band.
pub open spec fn nudge_split(cur: u16, delta: int) -> u16 {
    let moved = if cur + delta < 0 {
        0int
    } else if cur + delta > 65535 {
        65535int
    } else {
        cur + delta
    };
    if moved < MIN_SPLIT_PERCENT as int {
        MIN_SPLIT_PERCENT
    } else if moved > MAX_SPLIT_PERCENT as int {
        MAX_SPLIT_PERCENT
    } else {
        moved as u16
    }
}

/// How a key press in Normal mode relates the old state to the new state
/// and the requested action. Arms are tried in order, exactly as the
/// handler does.
pub open spec fn normal_key_rel(pre: App, post: App, key: KeyEvent, act: AppAction) -> bool {
    let ctrl = key.modifiers.ctrl;
    let len = pre.current_view().len() as int;
    if key.code == KeyCode::Char('q') {
        post == (App { should_quit: true, ..pre }) && act == AppAction::Idle
    } else if key.code == KeyCode::Char('c') && ctrl {
        post == (App { should_quit: true, ..pre }) && act == AppAction::Idle
    } else if key.code == KeyCode::Char('z') && ctrl {
        post == pre && act == AppAction::Suspend
    } else if (key.code == KeyCode::Up || key.code == KeyCode::Char('k')) && !ctrl {
        act == AppAction::Idle && (if pre.focus == Focus::List {
            post == (App { list_state: post.list_state, ..pre }) && post.list_state.sel()
                == wrap_prev(pre.list_state.sel(), len)
        } else {
            post == (App { detail_state: post.detail_state, ..pre })
                && post.detail_state.scroll_spec() == (if pre.detail_state.scroll_spec() - 1 >= 0 {
                pre.detail_state.scroll_spec() - 1
            } else {
                0int
            })
        })
    } else if (key.code == KeyCode::Down || key.code == KeyCode::Char('j')) && !ctrl {
        act == AppAction::Idle && (if pre.focus == Focus::List {
            post == (App { list_state: post.list_state, ..pre }) && post.list_state.sel()
                == wrap_next(pre.list_state.sel(), len)
        } else {
            post == (App { detail_state: post.detail_state, ..pre })
                && post.detail_state.scroll_spec() == (if pre.detail_state.scroll_spec() + 1
                <= pre.detail_state.max_scroll() {
                pre.detail_state.scroll_spec() + 1
            } else {
                pre.detail_state.max_scroll()
            })
        })
    } else if key.code == KeyCode::Char('u') || key.code == KeyCode::Char('b') || (key.code
        == KeyCode::Char('k') && ctrl) || key.code == KeyCode::PageUp {
        act == AppAction::Idle && (if pre.focus == Focus::List {
            post == (App { list_state: post.list_state, ..pre }) && post.list_state.sel()
                == page_move(pre.list_state.sel(), len, 10, false)
        } else {
            post == (App { detail_state: post.detail_state, ..pre })
                && post.detail_state.scroll_spec() == (if pre.detail_state.scroll_spec() - 10 >= 0 {
                pre.detail_state.scroll_spec() - 10
            } else {
                0int
            })
        })
    } else if key.code == KeyCode::Char('d') || key.code == KeyCode::Char('f') || (key.code
        == KeyCode::Char('j') && ctrl) || key.code == KeyCode::PageDown {
        act == AppAction::Idle && (if pre.focus == Focus::List {
            post == (App { list_state: post.list_state, ..pre }) && post.list_state.sel()
                == page_move(pre.list_state.sel(), len, 10, true)
        } else {
            post == (App { detail_state: post.detail_state, ..pre })
                && post.detail_state.scroll_spec() == (if pre.detail_state.scroll_spec() + 10
                <= pre.detail_state.max_scroll() {
                pre.detail_state.scroll_spec() + 10
            } else {
                pre.detail_state.max_scroll()
            })
        })
    } else if key.code == KeyCode::Home || key.code == KeyCode::Char('g') {
        act == AppAction::Idle && (if pre.focus == Focus::List {
            post == (App { list_state: post.list_state, ..pre }) && post.list_state.sel() == (
            if len == 0 {
                None::<usize>
            } else {
                Some(0usize)
            })
        } else {
            post == (App { detail_state: post.detail_state, ..pre })
                && post.detail_state.scroll_spec() == 0
        })
    } else if key.code == KeyCode::End || key.code == KeyCode::Char('G') {
        act == AppAction::Idle && (if pre.focus == Focus::List {
            post == (App { list_state: post.list_state, ..pre }) && (if len == 0 {
                post.list_state == pre.list_state
            } else {
                post.list_state.sel() == Some((len - 1) as usize)
            })
        } else {
            post == (App { detail_state: post.detail_state, ..pre })
                && post.detail_state.scroll_spec() == (if pre.detail_state.scroll_spec() + 10000
                <= pre.detail_state.max_scroll() {
                pre.detail_state.scroll_spec() + 10000
            } else {
                pre.detail_state.max_scroll()
            })
        })
    } else if (key.code == KeyCode::Enter || key.code == KeyCode::Char('l') || key.code
        == KeyCode::Right) && pre.focus == Focus::List {
        act == AppAction::Idle && post == (App {
            show_detail: true,
            focus: Focus::Detail,
            detail_state: post.detail_state,
            ..pre
        }) && post.detail_state.scroll_spec() == 0
    } else if (key.code == KeyCode::Esc || key.code == KeyCode::Char('h') || key.code
        == KeyCode::Left) && pre.focus == Focus::Detail {
        act == AppAction::Idle && post == (App { show_detail: false, focus: Focus::List, ..pre })
    } else if key.code == KeyCode::Tab && pre.show_detail {
        act == AppAction::Idle && (if pre.focus == Focus::List {
            post == (App { focus: Focus::Detail, detail_state: post.detail_state, ..pre })
                && post.detail_state.scroll_spec() == 0
        } else {
            post == (App { focus: Focus::List, ..pre })
        })
    } else if key.code == KeyCode::Char('<') && pre.show_detail {
        act == AppAction::Idle && post == (App {
            split_percent: nudge_split(pre.split_percent, -5),
            ..pre
        })
    } else if key.code == KeyCode::Char('>') && pre.show_detail {
        act == AppAction::Idle && post == (App {
            split_percent: nudge_split(pre.split_percent, 5),
            ..pre
        })
    } else if key.code == KeyCode::Char('/') {
        act == AppAction::Idle && post == (App {
            input_mode: InputMode::Search,
            search_input: post.search_input,
            list_state: post.list_state,
            ..pre
        }) && post.search_input.text_seq() == Seq::<char>::empty() && post.list_state.sel()
            == clamped_sel(pre.list_state.sel(), post.current_view().len() as int)
    } else if key.code == KeyCode::Esc && pre.focus == Focus::List {
        act == AppAction::Idle && post == (App {
            search_input: post.search_input,
            list_state: post.list_state,
            ..pre
        }) && post.search_input.text_seq() == Seq::<char>::empty() && post.list_state.sel()
            == clamped_sel(pre.list_state.sel(), post.current_view().len() as int)
    } else if key.code == KeyCode::Char('a') {
        act == AppAction::Idle && post == (App {
            input_mode: InputMode::Creating,
            editing_bead_id: None,
            create_modal: post.create_modal,
            ..pre
        }) && post.create_modal.open && post.create_modal.focus
            == crate::modal::CreateField::Title && post.create_modal.title.text_seq() == Seq::<
            char,
        >::empty() && post.create_modal.description.text_seq() == Seq::<char>::empty()
            && post.create_modal.labels.text_seq() == Seq::<char>::empty()
            && post.create_modal.bead_type == BeadType::Task && post.create_modal.priority == 2u8
    } else if key.code == KeyCode::Char('e') && pre.focus == Focus::Detail {
        act == AppAction::Idle && (match sel_bead(pre) {
            None => post == pre,
            Some(b) => {
                let bead = pre.beads@[b as int];
                post == (App {
                    input_mode: InputMode::Editing,
                    editing_bead_id: post.editing_bead_id,
                    create_modal: post.create_modal,
                    ..pre
                }) && (post.editing_bead_id matches Some(id) && id@ == bead.id@)
                    && post.create_modal.open && post.create_modal.focus
                    == crate::modal::CreateField::Title && post.create_modal.title.text_seq()
                    == bead.title@ && post.create_modal.description.text_seq() == (
                match bead.description {
                    Some(d) => d@,
                    None => Seq::<char>::empty(),
                }) && post.create_modal.bead_type == bead.bead_type && post.create_modal.priority
                    == bead.priority
            },
        })
    } else if key.code == KeyCode::Char('t') {
        act == AppAction::Idle && post == (App {
            theme_idx: ((pre.theme_idx + 1) % (THEME_COUNT as int)) as usize,
            ..pre
        })
    } else if key.code == KeyCode::Char('L') {
        act == AppAction::Idle && post == (App { show_labels: !pre.show_labels, ..pre })
    } else if key.code == KeyCode::Char('r') {
        post == pre && act == AppAction::Refresh
    } else if key.code == KeyCode::Char('?') {
        act == AppAction::Idle && post == (App { show_help: true, ..pre })
    } else if key.code == KeyCode::Char('x') && pre.focus == Focus::Detail {
        act == AppAction::Idle && (match sel_bead(pre) {
            None => post == pre,
            Some(b) => post == (App {
                input_mode: if pre.beads@[b as int].status == BeadStatus::Closed {
                    InputMode::ReopeningBead
                } else {
                    InputMode::ClosingBead
                },
                reason_input: post.reason_input,
                ..pre
            }) && post.reason_input.text_seq() == Seq::<char>::empty(),
        })
    } else if key.code == KeyCode::Char('D') && pre.focus == Focus::Detail {
        post == pre && (match sel_bead(pre) {
            None => act == AppAction::Idle,
            Some(b) => {
                let bead = pre.beads@[b as int];
                if bead.status == BeadStatus::Open {
                    act matches AppAction::UpdateStatus { id, status } && id@ == bead.id@
                        && status@ == "deferred"@
                } else {
                    act == AppAction::Idle
                }
            },
        })
    } else if key.code == KeyCode::Char('c') && pre.focus == Focus::List {
        act == AppAction::Idle && post == (App {
            hide_closed: !pre.hide_closed,
            list_state: post.list_state,
            ..pre
        }) && post.list_state.sel() == clamped_sel(
            pre.list_state.sel(),
            post.current_view().len() as int,
        )
    } else if key.code == KeyCode::Char('c') && pre.focus == Focus::Detail {
        act == AppAction::Idle && (match sel_bead(pre) {
            None => post == pre,
            Some(b) => post == (App {
                input_mode: InputMode::AddingComment,
                comment_input: post.comment_input,
                ..pre
            }) && post.comment_input.text_seq() == Seq::<char>::empty(),
        })
    } else {
        post == pre && act == AppAction::Idle
    }
}

/// The bead index the selection points at, if any.
pub open spec fn sel_bead(a: App) -> Option<usize> {
    match a.list_state.sel() {
        Some(i) => if (i as int) < a.current_view().len() {
            Some(a.current_view()[i as int].0)
        } else {
            None::<usize>
        },
        None => None::<usize>,
    }
}

/// How a key press in Search mode relates the old and new states: Escape
/// clears the filter and leaves, Enter commits it and leaves, anything
/// else edits the buffer, resetting the selection when the text length
/// changed.
pub open spec fn search_key_rel(pre: App, post: App, key: KeyEvent) -> bool {
    if key.code == KeyCode::Esc {
        post == (App {
            input_mode: InputMode::Normal,
            search_input: post.search_input,
            list_state: post.list_state,
            ..pre
        }) && post.search_input.text_seq() == Seq::<char>::empty() && post.list_state.sel()
            == clamped_sel(pre.list_state.sel(), post.current_view().len() as int)
    } else if key.code == KeyCode::Enter {
        post == (App { input_mode: InputMode::Normal, ..pre })
    } else {
        let (t2, c2, _h) = crate::input::key_result(
            pre.search_input.text_seq(),
            pre.search_input.cursor_spec(),
            key,
        );
        post == (App { search_input: post.search_input, list_state: post.list_state, ..pre })
            && post.search_input.text_seq() == t2 && post.search_input.cursor_spec() == c2 && (
        if t2.len() != pre.search_input.text_seq().len() {
            post.list_state.sel() == (if post.current_view().len() == 0 {
                None::<usize>
            } else {
                Some(0usize)
            })
        } else {
            post.list_state.sel() == clamped_sel(
                pre.list_state.sel(),
                post.current_view().len() as int,
            )
        })
    }
}

/// How a key press in the close / reopen prompt relates states and action.
pub open spec fn reason_key_rel(
    pre: App,
    post: App,
    key: KeyEvent,
    act: AppAction,
    reopen: bool,
) -> bool {
    if key.code == KeyCode::Esc {
        post == (App { input_mode: InputMode::Normal, reason_input: post.reason_input, ..pre })
            && post.reason_input.text_seq() == Seq::<char>::empty() && act == AppAction::Idle
    } else if key.code == KeyCode::Enter && !key.modifiers.shift {
        post == (App { input_mode: InputMode::Normal, reason_input: post.reason_input, ..pre })
            && post.reason_input.text_seq() == Seq::<char>::empty() && (match sel_bead(pre) {
            None => act == AppAction::Idle,
            Some(b) => {
                let bead = pre.beads@[b as int];
                let text = pre.reason_input.text_seq();
                if reopen {
                    act matches AppAction::ReopenBead { id, comment } && id@ == bead.id@ && (
                    if text.len() == 0 {
                        comment is None
                    } else {
                        comment matches Some(c) && c@ == "Reopened: "@ + text
                    })
                } else {
                    act matches AppAction::CloseBead { id, reason } && id@ == bead.id@ && (
                    if text.len() == 0 {
                        reason is None
                    } else {
                        reason matches Some(s) && s@ == text
                    })
                }
            },
        })
    } else {
        let (t2, c2, _h) = crate::input::key_result(
            pre.reason_input.text_seq(),
            pre.reason_input.cursor_spec(),
            key,
        );
        post == (App { reason_input: post.reason_input, ..pre }) && post.reason_input.text_seq()
            == t2 && post.reason_input.cursor_spec() == c2 && act == AppAction::Idle
    }
}

/// How a key press in the comment prompt relates states and action: a
/// blank comment is silently discarded.
pub open spec fn comment_key_rel(pre: App, post: App, key: KeyEvent, act: AppAction) -> bool {
    if key.code == KeyCode::Esc {
        post == (App { input_mode: InputMode::Normal, comment_input: post.comment_input, ..pre })
            && post.comment_input.text_seq() == Seq::<char>::empty() && act == AppAction::Idle
    } else if key.code == KeyCode::Enter && !key.modifiers.shift {
        post == (App { input_mode: InputMode::Normal, comment_input: post.comment_input, ..pre })
            && post.comment_input.text_seq() == Seq::<char>::empty() && (match sel_bead(pre) {
            None => act == AppAction::Idle,
            Some(b) => {
                let bead = pre.beads@[b as int];
                let text = pre.comment_input.text_seq();
                if is_blank(text) {
                    act == AppAction::Idle
                } else {
                    act matches AppAction::AddComment { id, text: t } && id@ == bead.id@ && t@
                        == text
                }
            },
        })
    } else {
        let (t2, c2, _h) = crate::input::key_result(
            pre.comment_input.text_seq(),
            pre.comment_input.cursor_spec(),
            key,
        );
        post == (App { comment_input: post.comment_input, ..pre }) && post.comment_input.text_seq()
            == t2 && post.comment_input.cursor_spec() == c2 && act == AppAction::Idle
    }
}

/// The first bead index carrying this id, if any.
pub open spec fn find_bead_spec(beads: Seq<Bead>, id: Seq<char>, n: int) -> Option<usize>
    decreases n,
{
    if n <= 0 {
        None
    } else {
        match find_bead_spec(beads, id, n - 1) {
            Some(i) => Some(i),
            None => if beads[n - 1].id@ == id {
                Some((n - 1) as usize)
            } else {
                None::<usize>
            },
        }
    }
}

/// The new-description view an edit submission carries: empty when the
/// form's description is blank, the form text otherwise.
pub open spec fn edit_desc_seq(m: CreateModal) -> Seq<char> {
    if is_blank(m.description.text_seq()) {
        Seq::empty()
    } else {
        m.description.text_seq()
    }
}

/// How a key press in the create or edit form relates states and action.
pub open spec fn modal_key_rel(
    pre: App,
    post: App,
    key: KeyEvent,
    act: AppAction,
    editing: bool,
) -> bool {
    let submit_key = key.code != KeyCode::Esc && key.modifiers.ctrl && (key.code == KeyCode::Char(
        's',
    ) || key.code == KeyCode::Enter);
    if key.code == KeyCode::Esc {
        post == (App {
            input_mode: InputMode::Normal,
            editing_bead_id: None,
            create_modal: post.create_modal,
            ..pre
        }) && !post.create_modal.open && act == AppAction::Idle
    } else if submit_key && is_blank(pre.create_modal.title.text_seq()) {
        post == pre && act == AppAction::Idle
    } else if submit_key && !editing {
        post == (App {
            input_mode: InputMode::Normal,
            editing_bead_id: None,
            create_modal: post.create_modal,
            list_state: post.list_state,
            ..pre
        }) && !post.create_modal.open && post.list_state.sel() == (
        if pre.current_view().len() == 0 {
            None::<usize>
        } else {
            Some(0usize)
        }) && (act matches AppAction::SubmitCreate { title, description, bead_type, priority, labels }
            && title@ == pre.create_modal.title.text_seq() && (if is_blank(
            pre.create_modal.description.text_seq(),
        ) {
            description is None
        } else {
            description matches Some(d) && d@ == pre.create_modal.description.text_seq()
        }) && bead_type == pre.create_modal.bead_type && priority == pre.create_modal.priority
            && labels.deep_view() == labels_of(pre.create_modal.labels.text_seq()))
    } else if submit_key && editing {
        post == (App {
            input_mode: InputMode::Normal,
            editing_bead_id: None,
            create_modal: post.create_modal,
            ..pre
        }) && !post.create_modal.open && (match pre.editing_bead_id {
            None => act == AppAction::Idle,
            Some(eid) => {
                match find_bead_spec(pre.beads@, eid@, pre.beads@.len() as int) {
                    None => act == AppAction::Idle,
                    Some(bi) => act matches AppAction::SubmitUpdate { id, updates } && id@ == eid@
                        && updates@.map_values(|u: FieldUpdate| fu_view(u)) == diff_spec(
                        pre.beads@[bi as int],
                        pre.create_modal.title.text_seq(),
                        edit_desc_seq(pre.create_modal),
                        pre.create_modal.bead_type,
                        pre.create_modal.priority,
                        labels_of(pre.create_modal.labels.text_seq()),
                    ),
                }
            },
        })
    } else {
        // everything else stays inside the form
        act == AppAction::Idle && post.input_mode == pre.input_mode && post.editing_bead_id
            == pre.editing_bead_id && post == (App { create_modal: post.create_modal, ..pre }) && (
        if key.code == KeyCode::BackTab || (key.code == KeyCode::Tab && key.modifiers.shift) {
            post.create_modal == (CreateModal {
                focus: match pre.create_modal.focus {
                    crate::modal::CreateField::Title => crate::modal::CreateField::Labels,
                    crate::modal::CreateField::Description => crate::modal::CreateField::Title,
                    crate::modal::CreateField::Type => crate::modal::CreateField::Description,
                    crate::modal::CreateField::Priority => crate::modal::CreateField::Type,
                    crate::modal::CreateField::Labels => crate::modal::CreateField::Priority,
                },
                ..pre.create_modal
            })
        } else if key.code == KeyCode::Tab {
            post.create_modal == (CreateModal {
                focus: match pre.create_modal.focus {
                    crate::modal::CreateField::Title => crate::modal::CreateField::Description,
                    crate::modal::CreateField::Description => crate::modal::CreateField::Type,
                    crate::modal::CreateField::Type => crate::modal::CreateField::Priority,
                    crate::modal::CreateField::Priority => crate::modal::CreateField::Labels,
                    crate::modal::CreateField::Labels => crate::modal::CreateField::Title,
                },
                ..pre.create_modal
            })
        } else {
            crate::modal::field_key_rel(pre.create_modal, post.create_modal, key)
        })
    }
}

proof fn lemma_find_extend(beads: Seq<Bead>, id: Seq<char>, i: int, n: int)
    requires
        0 <= i <= n,
        find_bead_spec(beads, id, i) is Some,
    ensures
        find_bead_spec(beads, id, n) == find_bead_spec(beads, id, i),
    decreases n,
{
    if n > i {
        lemma_find_extend(beads, id, i, n - 1);
    }
}

impl App {
    /// The first bead with this id, if any.
    fn find_bead_index(&self, id: &str) -> (r: Option<usize>)
        ensures
            r == find_bead_spec(self.beads@, id@, self.beads@.len() as int),
            r matches Some(i) ==> (i as int) < self.beads@.len(),
    {
        let mut i: usize = 0;
        while i < self.beads.len()
            invariant
                0 <= i <= self.beads@.len(),
                find_bead_spec(self.beads@, id@, i as int) is None,
            decreases self.beads@.len() - i,
        {
            if str_eq(self.beads[i].id.as_str(), id) {
                proof {
                    lemma_find_extend(self.beads@, id@, i + 1, self.beads@.len() as int);
                }
                return Some(i);
            }
            i = i + 1;
        }
        None
    }

    fn handle_search_key(&mut self, key: KeyEvent)
        requires
            old(self).inv(),
        ensures
            final(self).inv(),
            search_key_rel(*old(self), *final(self), key),
    {
        match key.code {
            KeyCode::Esc => {
                self.input_mode = InputMode::Normal;
                self.search_input.clear();
                self.clamp_selection();
            },
            KeyCode::Enter => {
                self.input_mode = InputMode::Normal;
            },
            _ => {
                let before = self.search_input.text();
                let old_n = before.as_str().unicode_len();
                self.search_input.handle_key(key);
                let cur = self.search_input.text();
                let cur_n = cur.as_str().unicode_len();
                if cur_n != old_n {
                    self.select_first_clamped();
                } else {
                    self.clamp_selection();
                }
            },
        }
    }

    fn handle_reason_key(&mut self, key: KeyEvent, reopen: bool) -> (r: AppAction)
        requires
            old(self).inv(),
        ensures
            final(self).inv(),
            reason_key_rel(*old(self), *final(self), key, r, reopen),
    {
        match key.code {
            KeyCode::Esc => {
                self.input_mode = InputMode::Normal;
                self.reason_input.clear();
                AppAction::Idle
            },
            KeyCode::Enter if !key.modifiers.shift => {
                let act = match self.selected_bead_index() {
                    None => AppAction::Idle,
                    Some(b) => {
                        let id = crate::text::copy_string(self.beads[b].id.as_str());
                        let text = self.reason_input.text();
                        let empty = text.as_str().unicode_len() == 0;
                        if reopen {
                            if empty {
                                AppAction::ReopenBead { id, comment: None }
                            } else {
                                let c = String::from_str("Reopened: ").concat(text.as_str());
                                AppAction::ReopenBead { id, comment: Some(c) }
                            }
                        } else {
                            if empty {
                                AppAction::CloseBead { id, reason: None }
                            } else {
                                AppAction::CloseBead { id, reason: Some(text) }
                            }
                        }
                    },
                };
                self.input_mode = InputMode::Normal;
                self.reason_input.clear();
                act
            },
            _ => {
                self.reason_input.handle_key(key);
                AppAction::Idle
            },
        }
    }

    fn handle_comment_key(&mut self, key: KeyEvent) -> (r: AppAction)
        requires
            old(self).inv(),
        ensures
            final(self).inv(),
            comment_key_rel(*old(self), *final(self), key, r),
    {
        match key.code {
            KeyCode::Esc => {
                self.input_mode = InputMode::Normal;
                self.comment_input.clear();
                AppAction::Idle
            },
            KeyCode::Enter if !key.modifiers.shift => {
                let act = match self.selected_bead_index() {
                    None => AppAction::Idle,
                    Some(b) => {
                        let text = self.comment_input.text();
                        let chars = crate::text::chars_of_str(text.as_str());
                        if crate::text::chars_blank(&chars) {
                            AppAction::Idle
                        } else {
                            let id = crate::text::copy_string(self.beads[b].id.as_str());
                            AppAction::AddComment { id, text }
                        }
                    },
                };
                self.input_mode = InputMode::Normal;
                self.comment_input.clear();
                act
            },
            _ => {
                self.comment_input.handle_key(key);
                AppAction::Idle
            },
        }
    }

    #[verifier::rlimit(100)]
    #[verifier::spinoff_prover]
    fn handle_modal_key(&mut self, key: KeyEvent, editing: bool) -> (r: AppAction)
        requires
            old(self).inv(),
        ensures
            final(self).inv(),
            modal_key_rel(*old(self), *final(self), key, r, editing),
    {
        let action = self.create_modal.handle_key(key);
        match action {
            ModalAction::Submit => {
                let act: AppAction;
                if !editing {
                    let title = self.create_modal.get_title();
                    let description = self.create_modal.get_description();
                    let bead_type = self.create_modal.bead_type;
                    let priority = self.create_modal.priority;
                    let labels = self.create_modal.get_labels();
                    act = AppAction::SubmitCreate { title, description, bead_type, priority, labels };
                    self.select_first_clamped();
                } else {
                    let eid: Option<String> = match &self.editing_bead_id {
                        None => None,
                        Some(s) => Some(crate::text::copy_string(s.as_str())),
                    };
                    act = match eid {
                        None => AppAction::Idle,
                        Some(id) => {
                            match self.find_bead_index(id.as_str()) {
                                None => AppAction::Idle,
                                Some(bi) => {
                                    let title = self.create_modal.get_title();
                                    let descr = match self.create_modal.get_description() {
                                        Some(d) => d,
                                        None => String::new(),
                                    };
                                    let labels = self.create_modal.get_labels();
                                    let updates = diff_updates(
                                        &self.beads[bi],
                                        &title,
                                        &descr,
                                        self.create_modal.bead_type,
                                        self.create_modal.priority,
                                        &labels,
                                    );
                                    AppAction::SubmitUpdate { id, updates }
                                },
                            }
                        },
                    };
                }
                self.input_mode = InputMode::Normal;
                self.create_modal.close();
                self.editing_bead_id = None;
                act
            },
            ModalAction::Cancelled => {
                self.input_mode = InputMode::Normal;
                self.editing_bead_id = None;
                AppAction::Idle
            },
            ModalAction::Continue => AppAction::Idle,
        }
    }

    #[verifier::rlimit(100)]
    #[verifier::spinoff_prover]
    fn handle_normal_key(&mut self, key: KeyEvent) -> (r: AppAction)
        requires
            old(self).inv(),
        ensures
            final(self).inv(),
            normal_key_rel(*old(self), *final(self), key, r),
    {
        let ctrl = key.modifiers.ctrl;
        if key.code == KeyCode::Char('q') {
            self.should_quit = true;
            AppAction::Idle
        } else if key.code == KeyCode::Char('c') && ctrl {
            self.should_quit = true;
            AppAction::Idle
        } else if key.code == KeyCode::Char('z') && ctrl {
            AppAction::Suspend
        } else if (key.code == KeyCode::Up || key.code == KeyCode::Char('k')) && !ctrl {
            let len = self.filtered_len();
            match self.focus {
                Focus::List => self.list_state.previous(len),
                Focus::Detail => self.detail_state.scroll_up(1),
            }
            AppAction::Idle
        } else if (key.code == KeyCode::Down || key.code == KeyCode::Char('j')) && !ctrl {
            let len = self.filtered_len();
            match self.focus {
                Focus::List => self.list_state.next(len),
                Focus::Detail => self.detail_state.scroll_down(1),
            }
            AppAction::Idle
        } else if key.code == KeyCode::Char('u') || key.code == KeyCode::Char('b') || (key.code
            == KeyCode::Char('k') && ctrl) || key.code == KeyCode::PageUp {
            match self.focus {
                Focus::List => self.scroll_up_list(10),
                Focus::Detail => self.detail_state.scroll_up(10),
            }
            AppAction::Idle
        } else if key.code == KeyCode::Char('d') || key.code == KeyCode::Char('f') || (key.code
            == KeyCode::Char('j') && ctrl) || key.code == KeyCode::PageDown {
            match self.focus {
                Focus::List => self.scroll_down_list(10),
                Focus::Detail => self.detail_state.scroll_down(10),
            }
            AppAction::Idle
        } else if key.code == KeyCode::Home || key.code == KeyCode::Char('g') {
            match self.focus {
                Focus::List => self.select_first_clamped(),
                Focus::Detail => self.detail_state.reset(),
            }
            AppAction::Idle
        } else if key.code == KeyCode::End || key.code == KeyCode::Char('G') {
            let len = self.filtered_len();
            match self.focus {
                Focus::List => self.list_state.last(len),
                Focus::Detail => self.detail_state.scroll_down(10000),
            }
            AppAction::Idle
        } else if (key.code == KeyCode::Enter || key.code == KeyCode::Char('l') || key.code
            == KeyCode::Right) && self.focus == Focus::List {
            self.show_detail = true;
            self.focus = Focus::Detail;
            self.detail_state.reset();
            AppAction::Idle
        } else if (key.code == KeyCode::Esc || key.code == KeyCode::Char('h') || key.code
            == KeyCode::Left) && self.focus == Focus::Detail {
            self.show_detail = false;
            self.focus = Focus::List;
            AppAction::Idle
        } else if key.code == KeyCode::Tab && self.show_detail {
            match self.focus {
                Focus::List => {
                    self.focus = Focus::Detail;
                    self.detail_state.reset();
                },
                Focus::Detail => {
                    self.focus = Focus::List;
                },
            }
            AppAction::Idle
        } else if key.code == KeyCode::Char('<') && self.show_detail {
            let moved = if self.split_percent >= 5 {
                self.split_percent - 5
            } else {
                0
            };
            self.split_percent = if moved < MIN_SPLIT_PERCENT {
                MIN_SPLIT_PERCENT
            } else if moved > MAX_SPLIT_PERCENT {
                MAX_SPLIT_PERCENT
            } else {
                moved
            };
            AppAction::Idle
        } else if key.code == KeyCode::Char('>') && self.show_detail {
            let moved: u16 = if self.split_percent as u32 + 5 > 65535 {
                65535
            } else {
                self.split_percent + 5
            };
            self.split_percent = if moved < MIN_SPLIT_PERCENT {
                MIN_SPLIT_PERCENT
            } else if moved > MAX_SPLIT_PERCENT {
                MAX_SPLIT_PERCENT
            } else {
                moved
            };
            AppAction::Idle
        } else if key.code == KeyCode::Char('/') {
            self.input_mode = InputMode::Search;
            self.search_input.clear();
            self.clamp_selection();
            AppAction::Idle
        } else if key.code == KeyCode::Esc && self.focus == Focus::List {
            self.search_input.clear();
            self.clamp_selection();
            AppAction::Idle
        } else if key.code == KeyCode::Char('a') {
            self.input_mode = InputMode::Creating;
            self.editing_bead_id = None;
            self.create_modal.open();
            AppAction::Idle
        } else if key.code == KeyCode::Char('e') && self.focus == Focus::Detail {
            match self.selected_bead_index() {
                None => {},
                Some(b) => {
                    self.input_mode = InputMode::Editing;
                    let id = crate::text::copy_string(self.beads[b].id.as_str());
                    self.editing_bead_id = Some(id);
                    self.create_modal.open_with_bead(&self.beads[b]);
                },
            }
            AppAction::Idle
        } else if key.code == KeyCode::Char('t') {
            self.theme_idx = if self.theme_idx >= THEME_COUNT - 1 {
                0
            } else {
                self.theme_idx + 1
            };
            AppAction::Idle
        } else if key.code == KeyCode::Char('L') {
            self.show_labels = !self.show_labels;
            AppAction::Idle
        } else if key.code == KeyCode::Char('r') {
            AppAction::Refresh
        } else if key.code == KeyCode::Char('?') {
            self.show_help = true;
            AppAction::Idle
        } else if key.code == KeyCode::Char('x') && self.focus == Focus::Detail {
            match self.selected_bead_index() {
                None => {},
                Some(b) => {
                    if self.beads[b].status == BeadStatus::Closed {
                        self.input_mode = InputMode::ReopeningBead;
                    } else {
                        self.input_mode = InputMode::ClosingBead;
                    }
                    self.reason_input.clear();
                },
            }
            AppAction::Idle
        } else if key.code == KeyCode::Char('D') && self.focus == Focus::Detail {
            match self.selected_bead_index() {
                None => AppAction::Idle,
                Some(b) => {
                    if self.beads[b].status == BeadStatus::Open {
                        let id = crate::text::copy_string(self.beads[b].id.as_str());
                        let status = crate::text::copy_string("deferred");
                        AppAction::UpdateStatus { id, status }
                    } else {
                        AppAction::Idle
                    }
                },
            }
        } else if key.code == KeyCode::Char('c') && self.focus == Focus::List {
            self.hide_closed = !self.hide_closed;
            self.clamp_selection();
            AppAction::Idle
        } else if key.code == KeyCode::Char('c') && self.focus == Focus::Detail {
            match self.selected_bead_index() {
                None => {},
                Some(_b) => {
                    self.input_mode = InputMode::AddingComment;
                    self.comment_input.clear();
                },
            }
            AppAction::Idle
        } else {
            AppAction::Idle
        }
    }

    /// Handle a key event in the current mode. A shown help overlay
    /// swallows the event; otherwise the mode's handler decides, and any
    /// mutation comes back as the returned action.
    pub fn handle_key(&mut self, key: KeyEvent) -> (r: AppAction)
        requires
            old(self).inv(),
        ensures
            final(self).inv(),
            old(self).show_help ==> *final(self) == (App { show_help: false, ..*old(self) }) && r
                == AppAction::Idle,
            !old(self).show_help ==> match old(self).input_mode {
                InputMode::Search => search_key_rel(*old(self), *final(self), key) && r
                    == AppAction::Idle,
                InputMode::Creating => modal_key_rel(*old(self), *final(self), key, r, false),
                InputMode::Editing => modal_key_rel(*old(self), *final(self), key, r, true),
                InputMode::ClosingBead => reason_key_rel(*old(self), *final(self), key, r, false),
                InputMode::ReopeningBead => reason_key_rel(*old(self), *final(self), key, r, true),
                InputMode::AddingComment => comment_key_rel(*old(self), *final(self), key, r),
                InputMode::Normal => normal_key_rel(*old(self), *final(self), key, r),
            },
    {
        if self.show_help {
            self.show_help = false;
            return AppAction::Idle;
        }
        match self.input_mode {
            InputMode::Search => {
                self.handle_search_key(key);
                AppAction::Idle
            },
            InputMode::Creating => self.handle_modal_key(key, false),
            InputMode::Editing => self.handle_modal_key(key, true),
            InputMode::ClosingBead => self.handle_reason_key(key, false),
            InputMode::ReopeningBead => self.handle_reason_key(key, true),
            InputMode::AddingComment => self.handle_comment_key(key),
            InputMode::Normal => self.handle_normal_key(key),
        }
    }

    /// Route pasted text to the mode's input: flattened to one line in the
    /// search field, by field focus in the form, verbatim in the reason and
    /// comment prompts. A shown help overlay swallows the paste.
    pub fn handle_paste(&mut self, text: &str)
        requires
            old(self).inv(),
        ensures
            final(self).inv(),
            old(self).show_help ==> *final(self) == (App { show_help: false, ..*old(self) }),
            !old(self).show_help ==> match old(self).input_mode {
                InputMode::Search => *final(self) == (App {
                    search_input: final(self).search_input,
                    list_state: final(self).list_state,
                    ..*old(self)
                }) && final(self).search_input.text_seq() == old(self).search_input.text_seq().take(
                    old(self).search_input.cursor_spec(),
                ) + crate::text::flatten_line(text@) + old(self).search_input.text_seq().skip(
                    old(self).search_input.cursor_spec(),
                ) && (if final(self).search_input.text_seq().len() != old(self).search_input.text_seq().len() {
                    final(self).list_state.sel() == (if final(self).current_view().len() == 0 {
                        None::<usize>
                    } else {
                        Some(0usize)
                    })
                } else {
                    final(self).list_state.sel() == clamped_sel(
                        old(self).list_state.sel(),
                        final(self).current_view().len() as int,
                    )
                }),
                InputMode::Creating | InputMode::Editing => *final(self) == (App {
                    create_modal: final(self).create_modal,
                    ..*old(self)
                }) && crate::modal::paste_rel(old(self).create_modal, final(self).create_modal, text@),
                InputMode::ClosingBead | InputMode::ReopeningBead => *final(self) == (App {
                    reason_input: final(self).reason_input,
                    ..*old(self)
                }) && final(self).reason_input.text_seq() == old(self).reason_input.text_seq().take(
                    old(self).reason_input.cursor_spec(),
                ) + text@ + old(self).reason_input.text_seq().skip(
                    old(self).reason_input.cursor_spec(),
                ),
                InputMode::AddingComment => *final(self) == (App {
                    comment_input: final(self).comment_input,
                    ..*old(self)
                }) && final(self).comment_input.text_seq() == old(self).comment_input.text_seq().take(old(self).comment_input.cursor_spec()) + text@
                    + old(self).comment_input.text_seq().skip(old(self).comment_input.cursor_spec()),
                InputMode::Normal => *final(self) == *old(self),
            },
    {
        if self.show_help {
            self.show_help = false;
            return;
        }
        match self.input_mode {
            InputMode::Search => {
                let before = self.search_input.text();
                let old_n = before.as_str().unicode_len();
                let single = crate::text::flatten_to_line(text);
                self.search_input.insert_str(single.as_str());
                let cur = self.search_input.text();
                let cur_n = cur.as_str().unicode_len();
                if cur_n != old_n {
                    self.select_first_clamped();
                } else {
                    self.clamp_selection();
                }
            },
            InputMode::Creating | InputMode::Editing => {
                self.create_modal.handle_paste(text);
            },
            InputMode::ClosingBead | InputMode::ReopeningBead => {
                self.reason_input.insert_str(text);
            },
            InputMode::AddingComment => {
                self.comment_input.insert_str(text);
            },
            InputMode::Normal => {},
        }
    }

    /// Record the rectangles the drawing layer last rendered, for mouse hit
    /// testing.
    pub fn set_areas(&mut self, list_area: Rect, detail_area: Rect)
        requires
            old(self).inv(),
        ensures
            final(self).inv(),
            *final(self) == (App { list_area, detail_area, ..*old(self) }),
    {
        self.list_area = list_area;
        self.detail_area = detail_area;
    }

    /// Handle a mouse event: clicks select rows, focus panes, or start a
    /// split drag on the pane border; the wheel scrolls whichever pane is
    /// focused.
    pub fn handle_mouse(&mut self, mouse: MouseEvent)
        requires
            old(self).inv(),
        ensures
            final(self).inv(),
            mouse.kind == MouseKind::ButtonUp ==> *final(self) == (App {
                split_resize_active: false,
                ..*old(self)
            }),
            (mouse.kind == MouseKind::LeftDown && on_split_handle_spec(
                old(self).list_area,
                old(self).detail_area,
                mouse.column as int,
                mouse.row as int,
            )) ==> *final(self) == (App {
                split_resize_active: true,
                split_percent: final(self).split_percent,
                ..*old(self)
            }) && final(self).split_percent == (match split_from_mouse_spec(
                old(self).list_area,
                old(self).detail_area,
                mouse.column as int,
            ) {
                Some(p) => p,
                None => old(self).split_percent,
            }),
            (mouse.kind == MouseKind::LeftDrag && old(self).split_resize_active) ==> *final(self)
                == (App { split_percent: final(self).split_percent, ..*old(self) }) && final(self).split_percent == (match split_from_mouse_spec(
                old(self).list_area,
                old(self).detail_area,
                mouse.column as int,
            ) {
                Some(p) => p,
                None => old(self).split_percent,
            }),
            mouse.kind == MouseKind::ScrollUp ==> (if old(self).focus == Focus::List {
                *final(self) == (App { list_state: final(self).list_state, ..*old(self) }) && final(self).list_state.sel() == wrap_prev(
                    old(self).list_state.sel(),
                    old(self).current_view().len() as int,
                )
            } else {
                *final(self) == (App { detail_state: final(self).detail_state, ..*old(self) })
                    && final(self).detail_state.scroll_spec() == (if old(self).detail_state.scroll_spec() - 3 >= 0 {
                    old(self).detail_state.scroll_spec() - 3
                } else {
                    0int
                })
            }),
            mouse.kind == MouseKind::ScrollDown ==> (if old(self).focus == Focus::List {
                *final(self) == (App { list_state: final(self).list_state, ..*old(self) }) && final(self).list_state.sel() == wrap_next(
                    old(self).list_state.sel(),
                    old(self).current_view().len() as int,
                )
            } else {
                *final(self) == (App { detail_state: final(self).detail_state, ..*old(self) })
                    && final(self).detail_state.scroll_spec() == (if old(self).detail_state.scroll_spec() + 3 <= old(self).detail_state.max_scroll() {
                    old(self).detail_state.scroll_spec() + 3
                } else {
                    old(self).detail_state.max_scroll()
                })
            }),
            mouse.kind == MouseKind::Other ==> *final(self) == *old(self),
    {
        match mouse.kind {
            MouseKind::LeftDown => {
                let x = mouse.column;
                let y = mouse.row;
                if on_split_handle(self.list_area, self.detail_area, x, y) {
                    self.split_resize_active = true;
                    self.apply_split_from_mouse(x);
                    return;
                }
                self.split_resize_active = false;
                if self.list_area.contains(x, y) {
                    let top: u16 = if self.list_area.y as u32 + 1 > 65535 {
                        65535
                    } else {
                        self.list_area.y + 1
                    };
                    let inner_y: u16 = if y >= top {
                        y - top
                    } else {
                        0
                    };
                    let idx = inner_y as usize;
                    let len = self.filtered_len();
                    if idx < len {
                        self.list_state.select(Some(idx));
                        self.show_detail = true;
                        self.focus = Focus::Detail;
                        self.detail_state.reset();
                    }
                } else if self.detail_area.contains(x, y) {
                    self.focus = Focus::Detail;
                }
            },
            MouseKind::LeftDrag => {
                if self.split_resize_active {
                    self.apply_split_from_mouse(mouse.column);
                }
            },
            MouseKind::ButtonUp => {
                self.split_resize_active = false;
            },
            MouseKind::ScrollUp => {
                let len = self.filtered_len();
                match self.focus {
                    Focus::List => self.list_state.previous(len),
                    Focus::Detail => self.detail_state.scroll_up(3),
                }
            },
            MouseKind::ScrollDown => {
                let len = self.filtered_len();
                match self.focus {
                    Focus::List => self.list_state.next(len),
                    Focus::Detail => self.detail_state.scroll_down(3),
                }
            },
            MouseKind::Other => {},
        }
    }

    fn apply_split_from_mouse(&mut self, x: u16)
        requires
            old(self).inv(),
        ensures
            final(self).inv(),
            *final(self) == (App { split_percent: final(self).split_percent, ..*old(self) }),
            final(self).split_percent == (match split_from_mouse_spec(
                old(self).list_area,
                old(self).detail_area,
                x as int,
            ) {
                Some(p) => p,
                None => old(self).split_percent,
            }),
    {
        match split_from_mouse(self.list_area, self.detail_area, x) {
            Some(p) => {
                self.split_percent = p;
            },
            None => {},
        }
    }
}

} // verus!
