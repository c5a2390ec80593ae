//! The create/edit form: a five-field modal (title, description, type,
//! priority, labels) with its own sub-focus cycle, paste routing and submit
//! rules. Submission is allowed only when the trimmed title is non-empty.

use vstd::prelude::*;
use crate::bead::{Bead, BeadType};
use crate::input::{key_result, TextInput};
use crate::keys::{KeyCode, KeyEvent};
use crate::text::{
    collect_pieces, flatten_labels, flatten_line, flatten_to_labels, flatten_to_line, is_blank,
    join_with, split_chars, split_on, string_from_chars,
};

verus! {

/// Which field of the form is focused.
#[derive(Debug, Clone, Copy, PartialEq, Eq, Structural)]
pub enum CreateField {
    Title,
    Description,
    Type,
    Priority,
    Labels,
}

impl CreateField {
    /// The next field in the focus cycle.
    pub fn next(self) -> (r: Self)
        ensures
            r == match self {
                CreateField::Title => CreateField::Description,
                CreateField::Description => CreateField::Type,
                CreateField::Type => CreateField::Priority,
                CreateField::Priority => CreateField::Labels,
                CreateField::Labels => CreateField::Title,
            },
    {
        match self {
            Self::Title => Self::Description,
            Self::Description => Self::Type,
            Self::Type => Self::Priority,
            Self::Priority => Self::Labels,
            Self::Labels => Self::Title,
        }
    }

    /// The previous field in the focus cycle.
    pub fn prev(self) -> (r: Self)
        ensures
            r == match self {
                CreateField::Title => CreateField::Labels,
                CreateField::Description => CreateField::Title,
                CreateField::Type => CreateField::Description,
                CreateField::Priority => CreateField::Type,
                CreateField::Labels => CreateField::Priority,
            },
    {
        match self {
            Self::Title => Self::Labels,
            Self::Description => Self::Title,
            Self::Type => Self::Description,
            Self::Priority => Self::Type,
            Self::Labels => Self::Priority,
        }
    }
}

/// What the form asks for after a key press.
#[derive(Debug, Clone, Copy, PartialEq, Eq, Structural)]
pub enum ModalAction {
    Continue,
    Submit,
    Cancelled,
}

/// The type after the type field cycles forward.
pub open spec fn next_type_spec(t: BeadType) -> BeadType {
    match t {
        BeadType::Task => BeadType::Bug,
        BeadType::Bug => BeadType::Feature,
        BeadType::Feature => BeadType::Epic,
        BeadType::Epic => BeadType::Story,
        BeadType::Story => BeadType::Task,
    }
}

/// The type after the type field cycles backward.
pub open spec fn prev_type_spec(t: BeadType) -> BeadType {
    match t {
        BeadType::Task => BeadType::Story,
        BeadType::Bug => BeadType::Task,
        BeadType::Feature => BeadType::Bug,
        BeadType::Epic => BeadType::Feature,
        BeadType::Story => BeadType::Epic,
    }
}

/// State of the create/edit form.
pub struct CreateModal {
    /// Currently focused field.
    pub focus: CreateField,
    /// Title input.
    pub title: TextInput,
    /// Description input (multi-line).
    pub description: TextInput,
    /// Selected bead type.
    pub bead_type: BeadType,
    /// Selected priority (0-4).
    pub priority: u8,
    /// Labels input, comma-separated.
    pub labels: TextInput,
    /// Whether the modal is open.
    pub open: bool,
}

/// The labels the form's label text denotes: comma-separated pieces,
/// trimmed, blanks dropped.
pub open spec fn labels_of(s: Seq<char>) -> Seq<Seq<char>> {
    collect_pieces(split_on(s, ','))
}

/// The key turns the focused field's cursor key into a cycle of the type
/// wheel: left-ish keys go backward, right-ish keys go forward.
pub open spec fn wheel_dir(code: KeyCode) -> int {
    match code {
        KeyCode::Left => -1,
        KeyCode::Char('h') => -1,
        KeyCode::Char('k') => -1,
        KeyCode::Up => -1,
        KeyCode::Right => 1,
        KeyCode::Char('l') => 1,
        KeyCode::Char('j') => 1,
        KeyCode::Down => 1,
        _ => 0,
    }
}

/// The digit a priority key names, if it is one the field accepts.
pub open spec fn priority_digit(code: KeyCode) -> Option<u8> {
    match code {
        KeyCode::Char('0') => Some(0u8),
        KeyCode::Char('1') => Some(1u8),
        KeyCode::Char('2') => Some(2u8),
        KeyCode::Char('3') => Some(3u8),
        KeyCode::Char('4') => Some(4u8),
        _ => None,
    }
}

/// How a key press, delegated to the focused field, relates the old form
/// state to the new one.
pub open spec fn field_key_rel(pre: CreateModal, post: CreateModal, key: KeyEvent) -> bool {
    post.focus == (if pre.focus == CreateField::Title && key.code == KeyCode::Enter
        && !key.modifiers.shift {
        CreateField::Description
    } else {
        pre.focus
    }) && post.open == pre.open && match pre.focus {
        CreateField::Title => {
            if key.code == KeyCode::Enter && !key.modifiers.shift {
                post.title == pre.title && post.description == pre.description && post.bead_type
                    == pre.bead_type && post.priority == pre.priority && post.labels == pre.labels
            } else {
                let (t2, c2, _h) = key_result(pre.title.text_seq(), pre.title.cursor_spec(), key);
                post.title.text_seq() == t2 && post.title.cursor_spec() == c2 && post.description
                    == pre.description && post.bead_type == pre.bead_type && post.priority
                    == pre.priority && post.labels == pre.labels
            }
        },
        CreateField::Description => {
            if key.code == KeyCode::Enter {
                post.description.text_seq() == pre.description.text_seq().insert(
                    pre.description.cursor_spec(),
                    '\n',
                ) && post.description.cursor_spec() == pre.description.cursor_spec() + 1
                    && post.title == pre.title && post.bead_type == pre.bead_type && post.priority
                    == pre.priority && post.labels == pre.labels
            } else {
                let (t2, c2, _h) = key_result(
                    pre.description.text_seq(),
                    pre.description.cursor_spec(),
                    key,
                );
                post.description.text_seq() == t2 && post.description.cursor_spec() == c2
                    && post.title == pre.title && post.bead_type == pre.bead_type && post.priority
                    == pre.priority && post.labels == pre.labels
            }
        },
        CreateField::Type => {
            post.bead_type == (if wheel_dir(key.code) == -1 {
                prev_type_spec(pre.bead_type)
            } else if wheel_dir(key.code) == 1 {
                next_type_spec(pre.bead_type)
            } else {
                pre.bead_type
            }) && post.title == pre.title && post.description == pre.description && post.priority
                == pre.priority && post.labels == pre.labels
        },
        CreateField::Priority => {
            post.priority == (if wheel_dir(key.code) == -1 {
                if pre.priority > 0 {
                    (pre.priority - 1) as u8
                } else {
                    0u8
                }
            } else if wheel_dir(key.code) == 1 {
                if pre.priority >= 4 {
                    4u8
                } else {
                    (pre.priority + 1) as u8
                }
            } else {
                match priority_digit(key.code) {
                    Some(d) => d,
                    None => pre.priority,
                }
            }) && post.title == pre.title && post.description == pre.description && post.bead_type
                == pre.bead_type && post.labels == pre.labels
        },
        CreateField::Labels => {
            if key.code == KeyCode::Enter {
                post.labels == pre.labels && post.title == pre.title && post.description
                    == pre.description && post.bead_type == pre.bead_type && post.priority
                    == pre.priority
            } else {
                let (t2, c2, _h) = key_result(pre.labels.text_seq(), pre.labels.cursor_spec(), key);
                post.labels.text_seq() == t2 && post.labels.cursor_spec() == c2 && post.title
                    == pre.title && post.description == pre.description && post.bead_type
                    == pre.bead_type && post.priority == pre.priority
            }
        },
    }
}

/// How pasted text relates the old form state to the new one.
pub open spec fn paste_rel(pre: CreateModal, post: CreateModal, text: Seq<char>) -> bool {
    post.focus == pre.focus && post.open == pre.open && post.bead_type == pre.bead_type
        && post.priority == pre.priority && match pre.focus {
        CreateField::Title => post.title.text_seq() == pre.title.text_seq().take(
            pre.title.cursor_spec(),
        ) + flatten_line(text) + pre.title.text_seq().skip(pre.title.cursor_spec())
            && post.description == pre.description && post.labels == pre.labels,
        CreateField::Description => post.description.text_seq() == pre.description.text_seq().take(
            pre.description.cursor_spec(),
        ) + text + pre.description.text_seq().skip(pre.description.cursor_spec()) && post.title
            == pre.title && post.labels == pre.labels,
        CreateField::Labels => post.labels.text_seq() == pre.labels.text_seq().take(
            pre.labels.cursor_spec(),
        ) + flatten_labels(text) + pre.labels.text_seq().skip(pre.labels.cursor_spec())
            && post.title == pre.title && post.description == pre.description,
        CreateField::Type => post.title == pre.title && post.description == pre.description
            && post.labels == pre.labels,
        CreateField::Priority => post.title == pre.title && post.description == pre.description
            && post.labels == pre.labels,
    }
}

impl CreateModal {
    /// The form's buffers are well formed.
    pub open spec fn wf(self) -> bool {
        self.title.wf() && self.description.wf() && self.labels.wf()
    }

    /// A closed form with empty fields and the defaults: a task at priority
    /// two.
    pub fn new() -> (r: Self)
        ensures
            r.wf(),
            r.focus == CreateField::Title,
            r.title.text_seq() == Seq::<char>::empty(),
            r.description.text_seq() == Seq::<char>::empty(),
            r.labels.text_seq() == Seq::<char>::empty(),
            r.bead_type == BeadType::Task,
            r.priority == 2u8,
            !r.open,
    {
        CreateModal {
            focus: CreateField::Title,
            title: TextInput::new(),
            description: TextInput::new(),
            bead_type: BeadType::Task,
            priority: 2,
            labels: TextInput::new(),
            open: false,
        }
    }

    /// Open the form afresh: fields reset to the defaults.
    pub fn open(&mut self)
        ensures
            final(self).wf(),
            final(self).open,
            final(self).focus == CreateField::Title,
            final(self).title.text_seq() == Seq::<char>::empty(),
            final(self).description.text_seq() == Seq::<char>::empty(),
            final(self).labels.text_seq() == Seq::<char>::empty(),
            final(self).bead_type == BeadType::Task,
            final(self).priority == 2u8,
    {
        self.open = true;
        self.focus = CreateField::Title;
        self.title = TextInput::new();
        self.description = TextInput::new();
        self.labels = TextInput::new();
        self.bead_type = BeadType::Task;
        self.priority = 2;
    }

    /// Open the form pre-filled from a bead, for editing: the title and
    /// description verbatim, the labels joined with comma-space, the type
    /// and priority copied.
    pub fn open_with_bead(&mut self, bead: &Bead)
        ensures
            final(self).wf(),
            final(self).open,
            final(self).focus == CreateField::Title,
            final(self).title.text_seq() == bead.title@,
            final(self).description.text_seq() == match bead.description {
                Some(d) => d@,
                None => Seq::<char>::empty(),
            },
            final(self).labels.text_seq() == (if bead.labels@.len() == 0 {
                Seq::<char>::empty()
            } else {
                join_with(bead.labels.deep_view(), ", "@)
            }),
            final(self).bead_type == bead.bead_type,
            final(self).priority == bead.priority,
    {
        self.open = true;
        self.focus = CreateField::Title;
        self.title = TextInput::with_text(bead.title.as_str());
        match &bead.description {
            Some(d) => {
                self.description = TextInput::with_text(d.as_str());
            },
            None => {
                self.description = TextInput::new();
            },
        }
        if bead.labels.len() == 0 {
            self.labels = TextInput::new();
        } else {
            let joined = crate::text::join_strings(&bead.labels, ", ");
            self.labels = TextInput::with_text(joined.as_str());
        }
        self.bead_type = bead.bead_type;
        self.priority = bead.priority;
    }

    /// Close the form; the fields keep their contents.
    pub fn close(&mut self)
        ensures
            !final(self).open,
            final(self).focus == old(self).focus,
            final(self).title == old(self).title,
            final(self).description == old(self).description,
            final(self).labels == old(self).labels,
            final(self).bead_type == old(self).bead_type,
            final(self).priority == old(self).priority,
    {
        self.open = false;
    }

    /// The form may be submitted: the title is not blank.
    pub fn can_submit(&self) -> (r: bool)
        requires
            self.wf(),
        ensures
            r == !is_blank(self.title.text_seq()),
    {
        let chars = crate::text::chars_of_str(self.title.text().as_str());
        !crate::text::chars_blank(&chars)
    }

    /// The entered title.
    pub fn get_title(&self) -> (r: String)
        ensures
            r@ == self.title.text_seq(),
    {
        self.title.text()
    }

    /// The entered description; `None` when it is blank.
    pub fn get_description(&self) -> (r: Option<String>)
        ensures
            is_blank(self.description.text_seq()) ==> r is None,
            !is_blank(self.description.text_seq()) ==> r is Some && r->0@
                == self.description.text_seq(),
    {
        let text = self.description.text();
        let chars = crate::text::chars_of_str(text.as_str());
        if crate::text::chars_blank(&chars) {
            None
        } else {
            Some(text)
        }
    }

    /// The entered labels: comma-separated, trimmed, blanks dropped.
    pub fn get_labels(&self) -> (r: Vec<String>)
        ensures
            r.deep_view() == labels_of(self.labels.text_seq()),
    {
        let text = self.labels.text();
        let chars = crate::text::chars_of_str(text.as_str());
        let pieces = split_chars(&chars, ',');
        let collected = crate::text::collect_pieces_exec(&pieces);
        let mut out: Vec<String> = Vec::new();
        let mut i: usize = 0;
        proof {
            assert(out.deep_view() =~~= collected.deep_view().take(0));
        }
        while i < collected.len()
            invariant
                0 <= i <= collected@.len(),
                collected.deep_view().len() == collected@.len(),
                out.deep_view() == collected.deep_view().take(i as int),
            decreases collected@.len() - i,
        {
            let ghost ov = out.deep_view();
            let s = string_from_chars(&collected[i]);
            proof {
                assert(collected@[i as int].deep_view() =~= collected@[i as int]@);
                assert(collected.deep_view()[i as int] == collected@[i as int].deep_view());
                assert(s.deep_view() =~= s@);
            }
            out.push(s);
            proof {
                assert(out.deep_view() =~~= ov.push(s@));
                assert(collected.deep_view().take(i + 1) =~~= collected.deep_view().take(
                    i as int,
                ).push(collected.deep_view()[i as int]));
                assert(out.deep_view() =~~= collected.deep_view().take(i + 1));
            }
            i = i + 1;
        }
        proof {
            assert(collected.deep_view().take(collected@.len() as int) =~~= collected.deep_view());
        }
        out
    }

    /// Route pasted text to the focused field: flattened to one line for
    /// the title, verbatim for the description, flattened to a label list
    /// for the labels; the option fields ignore pastes.
    pub fn handle_paste(&mut self, text: &str)
        requires
            old(self).wf(),
        ensures
            final(self).wf(),
            paste_rel(*old(self), *final(self), text@),
    {
        match self.focus {
            CreateField::Title => {
                let single = flatten_to_line(text);
                self.title.insert_str(single.as_str());
            },
            CreateField::Description => {
                self.description.insert_str(text);
            },
            CreateField::Labels => {
                let line = flatten_to_labels(text);
                self.labels.insert_str(line.as_str());
            },
            CreateField::Type => {},
            CreateField::Priority => {},
        }
    }

    /// Handle a key press aimed at the focused field.
    pub fn handle_field_key(&mut self, key: KeyEvent)
        requires
            old(self).wf(),
        ensures
            final(self).wf(),
            field_key_rel(*old(self), *final(self), key),
    {
        let shift = key.modifiers.shift;
        match self.focus {
            CreateField::Title => {
                if key.code == KeyCode::Enter && !shift {
                    self.focus = CreateField::Description;
                } else {
                    self.title.handle_key(key);
                }
            },
            CreateField::Description => {
                if key.code == KeyCode::Enter {
                    self.description.insert_char('\n');
                } else {
                    self.description.handle_key(key);
                }
            },
            CreateField::Type => {
                let dir_left = match key.code {
                    KeyCode::Left | KeyCode::Char('h') | KeyCode::Char('k') | KeyCode::Up => true,
                    _ => false,
                };
                let dir_right = match key.code {
                    KeyCode::Right | KeyCode::Char('l') | KeyCode::Char('j') | KeyCode::Down => true,
                    _ => false,
                };
                if dir_left {
                    self.bead_type = self.prev_type();
                } else if dir_right {
                    self.bead_type = self.next_type();
                }
            },
            CreateField::Priority => {
                let dir_left = match key.code {
                    KeyCode::Left | KeyCode::Char('h') | KeyCode::Char('k') | KeyCode::Up => true,
                    _ => false,
                };
                let dir_right = match key.code {
                    KeyCode::Right | KeyCode::Char('l') | KeyCode::Char('j') | KeyCode::Down => true,
                    _ => false,
                };
                if dir_left {
                    self.priority = if self.priority > 0 {
                        self.priority - 1
                    } else {
                        0
                    };
                } else if dir_right {
                    self.priority = if self.priority >= 4 {
                        4
                    } else {
                        self.priority + 1
                    };
                } else {
                    match key.code {
                        KeyCode::Char('0') => {
                            self.priority = 0;
                        },
                        KeyCode::Char('1') => {
                            self.priority = 1;
                        },
                        KeyCode::Char('2') => {
                            self.priority = 2;
                        },
                        KeyCode::Char('3') => {
                            self.priority = 3;
                        },
                        KeyCode::Char('4') => {
                            self.priority = 4;
                        },
                        _ => {},
                    }
                }
            },
            CreateField::Labels => {
                if key.code != KeyCode::Enter {
                    self.labels.handle_key(key);
                }
            },
        }
    }

    /// Handle a key press: Escape cancels and closes; a control submit key
    /// submits when the title is not blank; Tab and BackTab cycle the
    /// focus; everything else goes to the focused field.
    pub fn handle_key(&mut self, key: KeyEvent) -> (r: ModalAction)
        requires
            old(self).wf(),
        ensures
            final(self).wf(),
            key.code == KeyCode::Esc ==> r == ModalAction::Cancelled && !final(self).open && final(self).title == old(self).title && final(self).description == old(self).description && final(self).labels == old(self).labels && final(self).bead_type == old(self).bead_type && final(self).priority == old(self).priority,
            (key.code != KeyCode::Esc && key.modifiers.ctrl && (key.code == KeyCode::Char('s')
                || key.code == KeyCode::Enter)) ==> *final(self) == *old(self) && r == (if !is_blank(
                old(self).title.text_seq(),
            ) {
                ModalAction::Submit
            } else {
                ModalAction::Continue
            }),
            (key.code != KeyCode::Esc && !(key.modifiers.ctrl && (key.code == KeyCode::Char('s')
                || key.code == KeyCode::Enter)) && (key.code == KeyCode::BackTab || (key.code
                == KeyCode::Tab && key.modifiers.shift))) ==> r == ModalAction::Continue && final(self).focus == match old(self).focus {
                CreateField::Title => CreateField::Labels,
                CreateField::Description => CreateField::Title,
                CreateField::Type => CreateField::Description,
                CreateField::Priority => CreateField::Type,
                CreateField::Labels => CreateField::Priority,
            } && final(self).title == old(self).title && final(self).description == old(self).description && final(self).labels == old(self).labels && final(self).bead_type == old(self).bead_type && final(self).priority == old(self).priority && final(self).open == old(self).open,
            (key.code == KeyCode::Tab && !key.modifiers.shift) ==> r
                == ModalAction::Continue && final(self).focus == match old(self).focus {
                CreateField::Title => CreateField::Description,
                CreateField::Description => CreateField::Type,
                CreateField::Type => CreateField::Priority,
                CreateField::Priority => CreateField::Labels,
                CreateField::Labels => CreateField::Title,
            } && final(self).title == old(self).title && final(self).description == old(self).description && final(self).labels == old(self).labels && final(self).bead_type == old(self).bead_type && final(self).priority == old(self).priority && final(self).open == old(self).open,
            (key.code != KeyCode::Esc && !(key.modifiers.ctrl && (key.code == KeyCode::Char('s')
                || key.code == KeyCode::Enter)) && key.code != KeyCode::BackTab && key.code
                != KeyCode::Tab) ==> r == ModalAction::Continue && field_key_rel(
                *old(self),
                *final(self),
                key,
            ),
    {
        let ctrl = key.modifiers.ctrl;
        let shift = key.modifiers.shift;
        match key.code {
            KeyCode::Esc => {
                self.close();
                return ModalAction::Cancelled;
            },
            KeyCode::Char('s') if ctrl => {
                if self.can_submit() {
                    return ModalAction::Submit;
                }
                return ModalAction::Continue;
            },
            KeyCode::Enter if ctrl => {
                if self.can_submit() {
                    return ModalAction::Submit;
                }
                return ModalAction::Continue;
            },
            KeyCode::Tab if shift => {
                self.focus = self.focus.prev();
                return ModalAction::Continue;
            },
            KeyCode::BackTab => {
                self.focus = self.focus.prev();
                return ModalAction::Continue;
            },
            KeyCode::Tab => {
                self.focus = self.focus.next();
                return ModalAction::Continue;
            },
            _ => {
                self.handle_field_key(key);
            },
        }
        ModalAction::Continue
    }

    fn next_type(&self) -> (r: BeadType)
        ensures
            r == next_type_spec(self.bead_type),
    {
        match self.bead_type {
            BeadType::Task => BeadType::Bug,
            BeadType::Bug => BeadType::Feature,
            BeadType::Feature => BeadType::Epic,
            BeadType::Epic => BeadType::Story,
            BeadType::Story => BeadType::Task,
        }
    }

    fn prev_type(&self) -> (r: BeadType)
        ensures
            r == prev_type_spec(self.bead_type),
    {
        match self.bead_type {
            BeadType::Task => BeadType::Story,
            BeadType::Bug => BeadType::Task,
            BeadType::Feature => BeadType::Bug,
            BeadType::Epic => BeadType::Feature,
            BeadType::Story => BeadType::Epic,
        }
    }
}

} // verus!
