//! The command state machine: one key event at a time is folded into the
//! tracker. `step_spec` is the full transition relation — which mode follows
//! which key in which mode, and what each transition does to the sessions,
//! tags, editor and logs; `AppManager::update` implements exactly it. Keys
//! that a mode does not bind are no-ops by design, and typed characters that
//! could not sit in a log line (the field separator, line breaks) are
//! ignored.

use vstd::prelude::*;
use crate::app_manager::{
    apply_effect, continue_effect, copy_effect, delete_effect, end_effect, next_field_spec,
    prev_field_spec, start_effect, store_tag_effect, AppManager, lemma_wf_buffers_only,
};
use crate::app_state::{
    clean_text, CommandState, ConfirmOpen, SessionEditState, SessionField, SessionFieldEditState,
    SessionInputState, SessionModifyState, TagInputState,
};
use crate::control_keys::Key;
use crate::session::set_field_rel;
use crate::text::{pop_char, push_char, trim_spec};
use crate::timestamp::Timestamp;

verus! {

/// Only the mode changed.
pub open spec fn only_state(pre: AppManager, post: AppManager, st: CommandState) -> bool {
    post == (AppManager { state: st, ..pre })
}

/// The session selection moved one entry up (towards the newest), staying in
/// range; the mode is untouched.
pub open spec fn sel_up(pre: AppManager, post: AppManager) -> bool {
    post == (AppManager {
        selected_session_index: if pre.selected_session_index + 1 < pre.sessions@.len() {
            (pre.selected_session_index + 1) as usize
        } else {
            pre.selected_session_index
        },
        ..pre
    })
}

/// The session selection moved one entry down, stopping at the oldest.
pub open spec fn sel_down(pre: AppManager, post: AppManager) -> bool {
    post == (AppManager {
        selected_session_index: if pre.selected_session_index > 0 {
            (pre.selected_session_index - 1) as usize
        } else {
            pre.selected_session_index
        },
        ..pre
    })
}

/// The transient tag cursor moved one entry up, stopping at the first tag.
pub open spec fn temp_up(pre: AppManager, post: AppManager) -> bool {
    post == (AppManager {
        temp_tag_index: if pre.temp_tag_index > 0 {
            (pre.temp_tag_index - 1) as usize
        } else {
            pre.temp_tag_index
        },
        ..pre
    })
}

/// The transient tag cursor moved one entry down, staying in range.
pub open spec fn temp_down(pre: AppManager, post: AppManager) -> bool {
    post == (AppManager {
        temp_tag_index: if pre.temp_tag_index + 1 < pre.tags@.len() {
            (pre.temp_tag_index + 1) as usize
        } else {
            pre.temp_tag_index
        },
        ..pre
    })
}

/// A character joined the description buffer — unless it could not sit in a
/// log line, in which case it is ignored.
pub open spec fn desc_push(pre: AppManager, post: AppManager, c: char) -> bool {
    if c != pre.value_separator && c != '\n' {
        post == (AppManager { description_buffer: post.description_buffer, ..pre })
            && post.description_buffer@ == pre.description_buffer@.push(c)
    } else {
        post == pre
    }
}

/// The last character left the description buffer.
pub open spec fn desc_pop(pre: AppManager, post: AppManager) -> bool {
    post == (AppManager { description_buffer: post.description_buffer, ..pre })
        && post.description_buffer@ == (if pre.description_buffer@.len() > 0 {
        pre.description_buffer@.drop_last()
    } else {
        pre.description_buffer@
    })
}

/// A character joined the tag buffer, under the same line-format filter.
pub open spec fn tag_push(pre: AppManager, post: AppManager, c: char) -> bool {
    if c != pre.value_separator && c != '\n' {
        post == (AppManager { tag_buffer: post.tag_buffer, ..pre }) && post.tag_buffer@
            == pre.tag_buffer@.push(c)
    } else {
        post == pre
    }
}

/// The last character left the tag buffer.
pub open spec fn tag_pop(pre: AppManager, post: AppManager) -> bool {
    post == (AppManager { tag_buffer: post.tag_buffer, ..pre }) && post.tag_buffer@ == (
    if pre.tag_buffer@.len() > 0 {
        pre.tag_buffer@.drop_last()
    } else {
        pre.tag_buffer@
    })
}

/// The editor's field cursor moved, reloading the staged value from the
/// buffer; landing on the tag field re-points the transient tag cursor at
/// the buffer's tag.
pub open spec fn cursor_move(pre: AppManager, post: AppManager, right: bool) -> bool {
    match pre.session_edit_buffer {
        Some(b) => {
            let f2 = if right {
                next_field_spec(pre.selected_session_field, b)
            } else {
                prev_field_spec(pre.selected_session_field, b)
            };
            &&& post == (AppManager {
                selected_session_field: post.selected_session_field,
                temp_tag_index: post.temp_tag_index,
                ..pre
            })
            &&& post.selected_session_field == f2
            &&& if f2 matches SessionField::Tag(_) {
                post.temp_tag_index < pre.tags@.len() && pre.tags@[post.temp_tag_index as int]@
                    == b.tag@
            } else {
                post.temp_tag_index == pre.temp_tag_index
            }
        },
        None => post == pre,
    }
}

/// While the tag field is being edited, the vertical keys walk the registry:
/// the transient cursor moves and the staged tag becomes the tag under it.
pub open spec fn edit_tag_cycle(pre: AppManager, post: AppManager, up: bool) -> bool {
    if pre.tags@.len() > 0 {
        let t2 = if up {
            if pre.temp_tag_index > 0 {
                pre.temp_tag_index - 1
            } else {
                pre.temp_tag_index as int
            }
        } else {
            if pre.temp_tag_index + 1 < pre.tags@.len() {
                pre.temp_tag_index + 1
            } else {
                pre.temp_tag_index as int
            }
        };
        &&& post == (AppManager {
            temp_tag_index: t2 as usize,
            selected_session_field: post.selected_session_field,
            ..pre
        })
        &&& post.selected_session_field == SessionField::Tag(pre.tags[t2])
    } else {
        post == pre
    }
}

/// While the description field is being edited, typing appends to the staged
/// text (under the line-format filter) and backspace removes its last
/// character.
pub open spec fn edit_desc_text(pre: AppManager, post: AppManager, key: Key) -> bool {
    let s = pre.selected_session_field->Description_0;
    match key {
        Key::Char(c) => if c != pre.value_separator && c != '\n' {
            &&& post == (AppManager {
                selected_session_field: post.selected_session_field,
                ..pre
            })
            &&& post.selected_session_field matches SessionField::Description(s2) && s2@ == s@.push(
                c,
            )
        } else {
            post == pre
        },
        Key::Backspace => {
            &&& post == (AppManager { selected_session_field: post.selected_session_field, ..pre })
            &&& post.selected_session_field matches SessionField::Description(s2) && s2@ == (
            if s@.len() > 0 {
                s@.drop_last()
            } else {
                s@
            })
        },
        _ => post == pre,
    }
}

/// What ending the running session and immediately starting the composed one
/// does, in one confirmed step: the old session is persisted with `now` as
/// its end, and the new one starts running in memory when the trimmed
/// description is nonempty and a tag is selected.
pub open spec fn end_then_start_effect(pre: AppManager, post: AppManager, now: Timestamp) -> bool {
    let n = pre.sessions@.len() as int;
    let trimmed = trim_spec(pre.description_buffer@);
    let start_ok = pre.selected_tag_index < pre.tags@.len() && trimmed.len() > 0;
    &&& post == (AppManager {
        sessions: post.sessions,
        database_handler: post.database_handler,
        description_buffer: post.description_buffer,
        state: post.state,
        ..pre
    })
    &&& post.sessions@.len() == n + (if start_ok {
        1int
    } else {
        0int
    })
    &&& forall|i: int| 0 <= i < n - 1 ==> #[trigger] post.sessions@[i] == pre.sessions@[i]
    &&& post.sessions@[n - 1].description@ == pre.sessions@[n - 1].description@
    &&& post.sessions@[n - 1].tag@ == pre.sessions@[n - 1].tag@
    &&& post.sessions@[n - 1].start == pre.sessions@[n - 1].start
    &&& post.sessions@[n - 1].end == Some(now)
    &&& post.session_log_lines() == pre.session_log_lines() + seq![
        crate::session::db_line_spec(post.sessions@[n - 1], pre.value_separator),
    ]
    &&& post.tag_log_lines() == pre.tag_log_lines()
    &&& if start_ok {
        &&& post.sessions@.last().description@ == trimmed
        &&& post.sessions@.last().tag@ == pre.tags@[pre.selected_tag_index as int]@
        &&& post.sessions@.last().start == now
        &&& post.sessions@.last().end is None
        &&& post.description_buffer@.len() == 0
    } else {
        post.description_buffer@ == trimmed
    }
}

/// The staged copy was committed (or the commit was a no-op on an empty
/// buffer) and the editor advanced to the given mode.
pub open spec fn commit_field_then(
    pre: AppManager,
    post: AppManager,
    st: CommandState,
) -> bool {
    match pre.session_edit_buffer {
        Some(b) => {
            &&& post == (AppManager {
                session_edit_buffer: post.session_edit_buffer,
                state: st,
                ..pre
            })
            &&& post.session_edit_buffer matches Some(b2) && set_field_rel(
                b,
                pre.selected_session_field,
                b2,
            )
        },
        None => only_state(pre, post, st),
    }
}

/// The editor was left and its staged copy dropped, moving to the given mode.
pub open spec fn discard_editor_then(pre: AppManager, post: AppManager, st: CommandState) -> bool {
    post == (AppManager {
        session_edit_buffer: None,
        selected_session_field: SessionField::Unset,
        state: st,
        ..pre
    })
}

/// The whole transition relation of the tracker: what one key event in one
/// mode does to the mode and to the domain. Every reachable pair of states
/// of `AppManager::update` satisfies it.
pub open spec fn step_spec(pre: AppManager, post: AppManager, key: Key, now: Timestamp) -> bool {
    match pre.state {
        CommandState::Idle => match key {
            Key::Char(c) => if c == 'n' {
                only_state(
                    pre,
                    post,
                    CommandState::New(SessionInputState::Description(ConfirmOpen::No)),
                )
            } else if c == 'e' || c == 'c' || c == 'd' {
                if pre.sessions@.len() > 0 {
                    let st = if c == 'e' {
                        CommandState::Modify(SessionModifyState::Edit(SessionEditState::Browse))
                    } else if c == 'c' {
                        CommandState::Modify(SessionModifyState::Continue(ConfirmOpen::No))
                    } else {
                        CommandState::Modify(SessionModifyState::Delete(ConfirmOpen::No))
                    };
                    post == (AppManager {
                        selected_session_index: (pre.sessions@.len() - 1) as usize,
                        state: st,
                        ..pre
                    })
                } else {
                    post == pre
                }
            } else if c == ' ' {
                if pre.last_running() {
                    only_state(pre, post, CommandState::End)
                } else {
                    post == pre
                }
            } else if c == 'q' {
                only_state(pre, post, CommandState::Quitting)
            } else {
                post == pre
            },
            _ => post == pre,
        },
        CommandState::New(SessionInputState::Description(ConfirmOpen::Yes)) => match key {
            Key::Char(c) => if c == 'y' {
                if pre.last_running() {
                    end_then_start_effect(pre, post, now) && post.state is Idle
                } else {
                    start_effect(pre, (AppManager { state: pre.state, ..post }), now)
                        && post.state is Idle
                }
            } else if c == 'n' {
                only_state(
                    pre,
                    post,
                    CommandState::New(SessionInputState::Description(ConfirmOpen::No)),
                )
            } else {
                post == pre
            },
            Key::Esc => only_state(
                pre,
                post,
                CommandState::New(SessionInputState::Description(ConfirmOpen::No)),
            ),
            _ => post == pre,
        },
        CommandState::New(SessionInputState::Description(ConfirmOpen::No)) => match key {
            Key::Esc => only_state(pre, post, CommandState::Idle),
            Key::Backspace => desc_pop(pre, post),
            Key::Enter => if pre.last_running() {
                only_state(
                    pre,
                    post,
                    CommandState::New(SessionInputState::Description(ConfirmOpen::Yes)),
                )
            } else {
                start_effect(pre, (AppManager { state: pre.state, ..post }), now) && post.state
                    is Idle
            },
            Key::Tab => post == (AppManager {
                temp_tag_index: pre.selected_tag_index,
                state: CommandState::New(SessionInputState::Tag(TagInputState::Select)),
                ..pre
            }),
            Key::Char(c) => desc_push(pre, post, c),
            _ => post == pre,
        },
        CommandState::New(SessionInputState::Tag(TagInputState::Select)) => match key {
            Key::Char(c) => if c == 'n' {
                only_state(pre, post, CommandState::New(SessionInputState::Tag(TagInputState::New)))
            } else {
                post == pre
            },
            Key::Esc => only_state(
                pre,
                post,
                CommandState::New(SessionInputState::Description(ConfirmOpen::No)),
            ),
            Key::Up => temp_up(pre, post),
            Key::Down => temp_down(pre, post),
            Key::Enter => post == (AppManager {
                selected_tag_index: pre.temp_tag_index,
                state: CommandState::New(SessionInputState::Description(ConfirmOpen::No)),
                ..pre
            }),
            _ => post == pre,
        },
        CommandState::New(SessionInputState::Tag(TagInputState::New)) => match key {
            Key::Esc => only_state(
                pre,
                post,
                CommandState::New(SessionInputState::Tag(TagInputState::Select)),
            ),
            Key::Backspace => tag_pop(pre, post),
            Key::Enter => store_tag_effect(pre, (AppManager { state: pre.state, ..post }))
                && post.state == CommandState::New(
                SessionInputState::Description(ConfirmOpen::No),
            ),
            Key::Char(c) => tag_push(pre, post, c),
            _ => post == pre,
        },
        CommandState::New(SessionInputState::Tag(TagInputState::Delete(_))) => post == pre,
        CommandState::Modify(SessionModifyState::Edit(SessionEditState::Browse)) => match key {
            Key::Esc => only_state(pre, post, CommandState::Idle),
            Key::Up => sel_up(pre, post),
            Key::Down => sel_down(pre, post),
            Key::Enter => copy_effect(pre, (AppManager { state: pre.state, ..post }))
                && post.state == CommandState::Modify(
                SessionModifyState::Edit(
                    SessionEditState::EditFields(SessionFieldEditState::Browse),
                ),
            ),
            _ => post == pre,
        },
        CommandState::Modify(
            SessionModifyState::Edit(SessionEditState::EditFields(SessionFieldEditState::Browse)),
        ) => match key {
            Key::Esc => if pre.pending_changes_spec() {
                only_state(
                    pre,
                    post,
                    CommandState::Modify(SessionModifyState::Edit(SessionEditState::Confirm)),
                )
            } else {
                discard_editor_then(
                    pre,
                    post,
                    CommandState::Modify(SessionModifyState::Edit(SessionEditState::Browse)),
                )
            },
            Key::Left => cursor_move(pre, post, false),
            Key::Right => cursor_move(pre, post, true),
            Key::Enter => post == (AppManager {
                selected_datetime_segment: 0,
                state: CommandState::Modify(
                    SessionModifyState::Edit(
                        SessionEditState::EditFields(SessionFieldEditState::Editing),
                    ),
                ),
                ..pre
            }),
            _ => post == pre,
        },
        CommandState::Modify(
            SessionModifyState::Edit(SessionEditState::EditFields(SessionFieldEditState::Editing)),
        ) => match key {
            Key::Esc => only_state(
                pre,
                post,
                CommandState::Modify(
                    SessionModifyState::Edit(
                        SessionEditState::EditFields(SessionFieldEditState::Browse),
                    ),
                ),
            ),
            Key::Enter => commit_field_then(
                pre,
                post,
                CommandState::Modify(
                    SessionModifyState::Edit(
                        SessionEditState::EditFields(SessionFieldEditState::Browse),
                    ),
                ),
            ),
            Key::Up => match pre.selected_session_field {
                SessionField::Tag(_) => edit_tag_cycle(pre, post, true),
                _ => post == pre,
            },
            Key::Down => match pre.selected_session_field {
                SessionField::Tag(_) => edit_tag_cycle(pre, post, false),
                _ => post == pre,
            },
            Key::Char(_) | Key::Backspace => match pre.selected_session_field {
                SessionField::Description(_) => edit_desc_text(pre, post, key),
                _ => post == pre,
            },
            _ => post == pre,
        },
        CommandState::Modify(SessionModifyState::Edit(SessionEditState::Confirm)) => match key {
            Key::Char(c) => if c == 'y' {
                apply_effect(
                    pre,
                    (AppManager {
                        session_edit_buffer: pre.session_edit_buffer,
                        selected_session_field: pre.selected_session_field,
                        state: pre.state,
                        ..post
                    }),
                ) && post.session_edit_buffer is None && post.selected_session_field is Unset
                    && post.state is Idle
            } else if c == 'n' {
                discard_editor_then(pre, post, CommandState::Idle)
            } else {
                post == pre
            },
            Key::Esc => only_state(
                pre,
                post,
                CommandState::Modify(
                    SessionModifyState::Edit(
                        SessionEditState::EditFields(SessionFieldEditState::Browse),
                    ),
                ),
            ),
            _ => post == pre,
        },
        CommandState::Modify(SessionModifyState::Continue(ConfirmOpen::Yes)) => match key {
            Key::Char(c) => if c == 'y' {
                continue_effect(pre, (AppManager { state: pre.state, ..post }), now) && post.state
                    is Idle
            } else if c == 'n' {
                only_state(pre, post, CommandState::Idle)
            } else {
                post == pre
            },
            Key::Esc => only_state(pre, post, CommandState::Idle),
            _ => post == pre,
        },
        CommandState::Modify(SessionModifyState::Continue(ConfirmOpen::No)) => match key {
            Key::Esc => only_state(pre, post, CommandState::Idle),
            Key::Up => sel_up(pre, post),
            Key::Down => sel_down(pre, post),
            Key::Enter => only_state(
                pre,
                post,
                CommandState::Modify(SessionModifyState::Continue(ConfirmOpen::Yes)),
            ),
            _ => post == pre,
        },
        CommandState::Modify(SessionModifyState::Delete(ConfirmOpen::Yes)) => match key {
            Key::Char(c) => if c == 'y' {
                delete_effect(pre, (AppManager { state: pre.state, ..post })) && post.state
                    is Idle
            } else if c == 'n' {
                only_state(pre, post, CommandState::Idle)
            } else {
                post == pre
            },
            Key::Esc => only_state(pre, post, CommandState::Idle),
            _ => post == pre,
        },
        CommandState::Modify(SessionModifyState::Delete(ConfirmOpen::No)) => match key {
            Key::Esc => only_state(pre, post, CommandState::Idle),
            Key::Up => sel_up(pre, post),
            Key::Down => sel_down(pre, post),
            Key::Enter => only_state(
                pre,
                post,
                CommandState::Modify(SessionModifyState::Delete(ConfirmOpen::Yes)),
            ),
            _ => post == pre,
        },
        CommandState::End => match key {
            Key::Char(c) => if c == 'y' {
                end_effect(pre, (AppManager { state: pre.state, ..post }), now) && post.state
                    is Idle
            } else if c == 'n' {
                only_state(pre, post, CommandState::Idle)
            } else {
                post == pre
            },
            Key::Esc => only_state(pre, post, CommandState::Idle),
            _ => post == pre,
        },
        CommandState::Quitting => match key {
            Key::Char(c) => if c == 'y' {
                end_effect(pre, (AppManager { running: pre.running, ..post }), now)
                    && post.running == false
            } else if c == 'n' {
                only_state(pre, post, CommandState::Idle)
            } else {
                post == pre
            },
            Key::Esc => only_state(pre, post, CommandState::Idle),
            _ => post == pre,
        },
    }
}

impl AppManager {
    /// Feed one key event into the tracker at time `now`: the realization of
    /// `step_spec`, one transition per call. Unbound keys change nothing.
    pub fn update(&mut self, key: Key, now: Timestamp)
        requires
            old(self).wf(),
            now.wf(),
        ensures
            final(self).wf(),
            step_spec(*old(self), *final(self), key, now),
    {
        let st = self.state;
        match st {
            CommandState::Idle => self.handle_idle(key, now),
            CommandState::New(SessionInputState::Description(ConfirmOpen::Yes)) => self
                .handle_new_desc_confirm(key, now),
            CommandState::New(SessionInputState::Description(ConfirmOpen::No)) => self
                .handle_new_desc(key, now),
            CommandState::New(SessionInputState::Tag(TagInputState::Select)) => self
                .handle_tag_select(key, now),
            CommandState::New(SessionInputState::Tag(TagInputState::New)) => self.handle_tag_new(
                key,
                now,
            ),
            CommandState::New(SessionInputState::Tag(TagInputState::Delete(_))) => {},
            CommandState::Modify(SessionModifyState::Edit(SessionEditState::Browse)) => self
                .handle_edit_browse(key, now),
            CommandState::Modify(
                SessionModifyState::Edit(
                    SessionEditState::EditFields(SessionFieldEditState::Browse),
                ),
            ) => self.handle_fields_browse(key, now),
            CommandState::Modify(
                SessionModifyState::Edit(
                    SessionEditState::EditFields(SessionFieldEditState::Editing),
                ),
            ) => self.handle_fields_editing(key, now),
            CommandState::Modify(SessionModifyState::Edit(SessionEditState::Confirm)) => self
                .handle_edit_confirm(key, now),
            CommandState::Modify(SessionModifyState::Continue(_)) => self.handle_continue(
                key,
                now,
            ),
            CommandState::Modify(SessionModifyState::Delete(_)) => self.handle_delete(key, now),
            CommandState::End => self.handle_end_confirm(key, now),
            CommandState::Quitting => self.handle_quitting(key, now),
        }
    }

    fn handle_idle(&mut self, key: Key, now: Timestamp)
        requires
            old(self).wf(),
            now.wf(),
            old(self).state == CommandState::Idle,
        ensures
            final(self).wf(),
            step_spec(*old(self), *final(self), key, now),
    {
        match key {
            Key::Char(c) => {
                if c == 'n' {
                    self.state = CommandState::New(
                        SessionInputState::Description(ConfirmOpen::No),
                    );
                    proof {
                        crate::app_manager::lemma_wf_cursors(old(self), self);
                    }
                } else if c == 'e' || c == 'c' || c == 'd' {
                    if self.sessions.len() > 0 {
                        self.selected_session_index = self.sessions.len() - 1;
                        self.state = if c == 'e' {
                            CommandState::Modify(
                                SessionModifyState::Edit(SessionEditState::Browse),
                            )
                        } else if c == 'c' {
                            CommandState::Modify(
                                SessionModifyState::Continue(ConfirmOpen::No),
                            )
                        } else {
                            CommandState::Modify(
                                SessionModifyState::Delete(ConfirmOpen::No),
                            )
                        };
                        proof {
                            crate::app_manager::lemma_wf_cursors(old(self), self);
                        }
                    }
                } else if c == ' ' {
                    if self.is_last_session_still_running() {
                        self.state = CommandState::End;
                        proof {
                            crate::app_manager::lemma_wf_cursors(old(self), self);
                        }
                    }
                } else if c == 'q' {
                    self.state = CommandState::Quitting;
                    proof {
                        crate::app_manager::lemma_wf_cursors(old(self), self);
                    }
                }
            },
            _ => {},
        }
    }

    fn handle_new_desc_confirm(&mut self, key: Key, now: Timestamp)
        requires
            old(self).wf(),
            now.wf(),
            old(self).state == CommandState::New(SessionInputState::Description(ConfirmOpen::Yes)),
        ensures
            final(self).wf(),
            step_spec(*old(self), *final(self), key, now),
    {
        match key {
            Key::Char(c) => {
                if c == 'y' {
                    if self.is_last_session_still_running() {
                        self.end_running_session(now);
                        let ghost mid1 = *self;
                        self.try_start_new_session(now);
                        let ghost mid2 = *self;
                        self.state = CommandState::Idle;
                        proof {
                            crate::app_manager::lemma_wf_cursors(&mid2, self);
                            lemma_end_then_start(*old(self), mid1, mid2, *self, now);
                        }
                    } else {
                        self.try_start_new_session(now);
                        let ghost mid = *self;
                        self.state = CommandState::Idle;
                        proof {
                            crate::app_manager::lemma_wf_cursors(&mid, self);
                            assert((AppManager { state: old(self).state, ..*self })
                                == mid);
                        }
                    }
                } else if c == 'n' {
                    self.state = CommandState::New(
                        SessionInputState::Description(ConfirmOpen::No),
                    );
                    proof {
                        crate::app_manager::lemma_wf_cursors(old(self), self);
                    }
                }
            },
            Key::Esc => {
                self.state = CommandState::New(
                    SessionInputState::Description(ConfirmOpen::No),
                );
                proof {
                    crate::app_manager::lemma_wf_cursors(old(self), self);
                }
            },
            _ => {},
        }
    }

    fn handle_new_desc(&mut self, key: Key, now: Timestamp)
        requires
            old(self).wf(),
            now.wf(),
            old(self).state == CommandState::New(SessionInputState::Description(ConfirmOpen::No)),
        ensures
            final(self).wf(),
            step_spec(*old(self), *final(self), key, now),
    {
        match key {
            Key::Esc => {
                self.state = CommandState::Idle;
                proof {
                    crate::app_manager::lemma_wf_cursors(old(self), self);
                }
            },
            Key::Backspace => {
                self.description_buffer = pop_char(&self.description_buffer);
                proof {
                    lemma_clean_shrink(
                        old(self).description_buffer@,
                        self.description_buffer@,
                        self.value_separator,
                    );
                    lemma_wf_buffers_only(old(self), self);
                }
            },
            Key::Enter => {
                if self.is_last_session_still_running() {
                    self.state = CommandState::New(
                        SessionInputState::Description(ConfirmOpen::Yes),
                    );
                    proof {
                        crate::app_manager::lemma_wf_cursors(old(self), self);
                    }
                } else {
                    self.try_start_new_session(now);
                    let ghost mid = *self;
                    self.state = CommandState::Idle;
                    proof {
                        crate::app_manager::lemma_wf_cursors(&mid, self);
                        assert((AppManager { state: old(self).state, ..*self }) == mid);
                    }
                }
            },
            Key::Tab => {
                self.temp_tag_index = self.get_selected_tag_index();
                self.state = CommandState::New(
                    SessionInputState::Tag(TagInputState::Select),
                );
                proof {
                    crate::app_manager::lemma_wf_cursors(old(self), self);
                }
            },
            Key::Char(c) => {
                if c != self.value_separator && c != '\n' {
                    self.description_buffer = push_char(&self.description_buffer, c);
                    proof {
                        lemma_clean_push(
                            old(self).description_buffer@,
                            c,
                            self.value_separator,
                        );
                        lemma_wf_buffers_only(old(self), self);
                    }
                }
            },
            _ => {},
        }
    }

    fn handle_tag_select(&mut self, key: Key, now: Timestamp)
        requires
            old(self).wf(),
            now.wf(),
            old(self).state == CommandState::New(SessionInputState::Tag(TagInputState::Select)),
        ensures
            final(self).wf(),
            step_spec(*old(self), *final(self), key, now),
    {
        match key {
            Key::Char(c) => {
                if c == 'n' {
                    self.state = CommandState::New(
                        SessionInputState::Tag(TagInputState::New),
                    );
                    proof {
                        crate::app_manager::lemma_wf_cursors(old(self), self);
                    }
                }
            },
            Key::Esc => {
                self.state = CommandState::New(
                    SessionInputState::Description(ConfirmOpen::No),
                );
                proof {
                    crate::app_manager::lemma_wf_cursors(old(self), self);
                }
            },
            Key::Up => {
                if self.temp_tag_index > 0 {
                    self.temp_tag_index = self.temp_tag_index - 1;
                }
                proof {
                    crate::app_manager::lemma_wf_cursors(old(self), self);
                }
            },
            Key::Down => {
                let n_tags = self.tags.len();
                if self.temp_tag_index + 1 < n_tags {
                    self.temp_tag_index = self.temp_tag_index + 1;
                }
                proof {
                    crate::app_manager::lemma_wf_cursors(old(self), self);
                }
            },
            Key::Enter => {
                if self.temp_tag_index < self.tags.len() {
                    let t = self.temp_tag_index;
                    self.set_selected_tag_index(t);
                }
                self.state = CommandState::New(
                    SessionInputState::Description(ConfirmOpen::No),
                );
                proof {
                    crate::app_manager::lemma_wf_cursors(old(self), self);
                }
            },
            _ => {},
        }
    }

    fn handle_tag_new(&mut self, key: Key, now: Timestamp)
        requires
            old(self).wf(),
            now.wf(),
            old(self).state == CommandState::New(SessionInputState::Tag(TagInputState::New)),
        ensures
            final(self).wf(),
            step_spec(*old(self), *final(self), key, now),
    {
        match key {
            Key::Esc => {
                self.state = CommandState::New(
                    SessionInputState::Tag(TagInputState::Select),
                );
                proof {
                    crate::app_manager::lemma_wf_cursors(old(self), self);
                }
            },
            Key::Backspace => {
                self.tag_buffer = pop_char(&self.tag_buffer);
                proof {
                    lemma_clean_shrink(
                        old(self).tag_buffer@,
                        self.tag_buffer@,
                        self.value_separator,
                    );
                    lemma_wf_buffers_only(old(self), self);
                }
            },
            Key::Enter => {
                self.try_store_tag();
                let ghost mid = *self;
                self.state = CommandState::New(
                    SessionInputState::Description(ConfirmOpen::No),
                );
                proof {
                    crate::app_manager::lemma_wf_cursors(&mid, self);
                    assert((AppManager { state: old(self).state, ..*self }) == mid);
                }
            },
            Key::Char(c) => {
                if c != self.value_separator && c != '\n' {
                    self.tag_buffer = push_char(&self.tag_buffer, c);
                    proof {
                        lemma_clean_push(old(self).tag_buffer@, c, self.value_separator);
                        lemma_wf_buffers_only(old(self), self);
                    }
                }
            },
            _ => {},
        }
    }

    fn handle_edit_browse(&mut self, key: Key, now: Timestamp)
        requires
            old(self).wf(),
            now.wf(),
            old(self).state == CommandState::Modify(SessionModifyState::Edit(SessionEditState::Browse)),
        ensures
            final(self).wf(),
            step_spec(*old(self), *final(self), key, now),
    {
        match key {
            Key::Esc => {
                self.state = CommandState::Idle;
                proof {
                    crate::app_manager::lemma_wf_cursors(old(self), self);
                }
            },
            Key::Up => {
                let n_sessions = self.sessions.len();
                if self.selected_session_index + 1 < n_sessions {
                    self.selected_session_index = self.selected_session_index + 1;
                }
                proof {
                    crate::app_manager::lemma_wf_cursors(old(self), self);
                }
            },
            Key::Down => {
                if self.selected_session_index > 0 {
                    self.selected_session_index = self.selected_session_index - 1;
                }
                proof {
                    crate::app_manager::lemma_wf_cursors(old(self), self);
                }
            },
            Key::Enter => {
                self.copy_selected_session_to_buffer();
                let ghost mid = *self;
                self.state = CommandState::Modify(
                    SessionModifyState::Edit(
                        SessionEditState::EditFields(SessionFieldEditState::Browse),
                    ),
                );
                proof {
                    assert((AppManager { state: old(self).state, ..*self }) == mid);
                    crate::app_manager::lemma_wf_open_editor(old(self), self);
                }
            },
            _ => {},
        }
    }

    fn handle_fields_browse(&mut self, key: Key, now: Timestamp)
        requires
            old(self).wf(),
            now.wf(),
            old(self).state == CommandState::Modify(
                SessionModifyState::Edit(
                    SessionEditState::EditFields(SessionFieldEditState::Browse),
                ),
            ),
        ensures
            final(self).wf(),
            step_spec(*old(self), *final(self), key, now),
    {
        match key {
            Key::Esc => {
                if self.session_buffer_has_pending_changes() {
                    self.state = CommandState::Modify(
                        SessionModifyState::Edit(SessionEditState::Confirm),
                    );
                    proof {
                        crate::app_manager::lemma_wf_cursors(old(self), self);
                    }
                } else {
                    self.clear_session_edit_buffer();
                    self.selected_session_field = SessionField::Unset;
                    self.state = CommandState::Modify(
                        SessionModifyState::Edit(SessionEditState::Browse),
                    );
                    proof {
                        crate::app_manager::lemma_wf_editor_closed(old(self), self);
                    }
                }
            },
            Key::Left => {
                self.decrement_selected_session_field();
                self.sync_tag_cursor();
                proof {
                    assert(cursor_move(*old(self), *self, false));
                }
            },
            Key::Right => {
                self.increment_selected_session_field();
                self.sync_tag_cursor();
                proof {
                    assert(cursor_move(*old(self), *self, true));
                }
            },
            Key::Enter => {
                self.selected_datetime_segment = 0;
                self.state = CommandState::Modify(
                    SessionModifyState::Edit(
                        SessionEditState::EditFields(SessionFieldEditState::Editing),
                    ),
                );
                proof {
                    crate::app_manager::lemma_wf_cursors(old(self), self);
                }
            },
            _ => {},
        }
    }

    fn handle_fields_editing(&mut self, key: Key, now: Timestamp)
        requires
            old(self).wf(),
            now.wf(),
            old(self).state == CommandState::Modify(
                SessionModifyState::Edit(
                    SessionEditState::EditFields(SessionFieldEditState::Editing),
                ),
            ),
        ensures
            final(self).wf(),
            step_spec(*old(self), *final(self), key, now),
    {
        match key {
            Key::Esc => {
                self.state = CommandState::Modify(
                    SessionModifyState::Edit(
                        SessionEditState::EditFields(SessionFieldEditState::Browse),
                    ),
                );
                proof {
                    crate::app_manager::lemma_wf_cursors(old(self), self);
                }
            },
            Key::Enter => {
                self.store_modified_field_to_session_buffer();
                let ghost mid = *self;
                self.state = CommandState::Modify(
                    SessionModifyState::Edit(
                        SessionEditState::EditFields(SessionFieldEditState::Browse),
                    ),
                );
                proof {
                    crate::app_manager::lemma_wf_cursors(&mid, self);
                    assert((AppManager { state: old(self).state, ..*self }) == mid);
                }
            },
            Key::Up | Key::Down => {
                let up = match key {
                    Key::Up => true,
                    _ => false,
                };
                let is_tag = matches!(&self.selected_session_field, SessionField::Tag(_));
                if is_tag && self.tags.len() > 0 {
                    let n_tags = self.tags.len();
                    if up {
                        if self.temp_tag_index > 0 {
                            self.temp_tag_index = self.temp_tag_index - 1;
                        }
                    } else {
                        if self.temp_tag_index + 1 < n_tags {
                            self.temp_tag_index = self.temp_tag_index + 1;
                        }
                    }
                    let staged = self.tags[self.temp_tag_index].clone();
                    self.selected_session_field = SessionField::Tag(staged);
                    proof {
                        assert(old(self).tag_known(
                            self.selected_session_field->Tag_0@,
                        )) by {
                            assert(old(self).tags@[self.temp_tag_index as int]@
                                == self.selected_session_field->Tag_0@);
                        }
                        crate::app_manager::lemma_wf_edit_field(old(self), self);
                        assert(edit_tag_cycle(*old(self), *self, up));
                    }
                }
            },
            Key::Char(_) | Key::Backspace => {
                let is_desc = matches!(
                    &self.selected_session_field,
                    SessionField::Description(_),
                );
                if is_desc {
                    let s0 = match &self.selected_session_field {
                        SessionField::Description(s0) => s0.clone(),
                        _ => String::new(),
                    };
                    match key {
                        Key::Char(c) => {
                            if c != self.value_separator && c != '\n' {
                                let s2 = push_char(&s0, c);
                                self.selected_session_field = SessionField::Description(
                                    s2,
                                );
                                proof {
                                    lemma_clean_push(s0@, c, self.value_separator);
                                    crate::app_manager::lemma_wf_edit_field(
                                        old(self),
                                        self,
                                    );
                                }
                            }
                        },
                        Key::Backspace => {
                            let s2 = pop_char(&s0);
                            self.selected_session_field = SessionField::Description(s2);
                            proof {
                                lemma_clean_shrink(
                                    s0@,
                                    self.selected_session_field->Description_0@,
                                    self.value_separator,
                                );
                                crate::app_manager::lemma_wf_edit_field(old(self), self);
                            }
                        },
                        _ => {},
                    }
                }
            },
            _ => {},
        }
    }

    fn handle_edit_confirm(&mut self, key: Key, now: Timestamp)
        requires
            old(self).wf(),
            now.wf(),
            old(self).state == CommandState::Modify(SessionModifyState::Edit(SessionEditState::Confirm)),
        ensures
            final(self).wf(),
            step_spec(*old(self), *final(self), key, now),
    {
        match key {
            Key::Char(c) => {
                if c == 'y' {
                    self.apply_changes_to_session();
                    let ghost mid = *self;
                    self.clear_session_edit_buffer();
                    self.selected_session_field = SessionField::Unset;
                    self.state = CommandState::Idle;
                    proof {
                        crate::app_manager::lemma_wf_editor_closed(&mid, self);
                        assert((AppManager {
                            session_edit_buffer: old(self).session_edit_buffer,
                            selected_session_field: old(self).selected_session_field,
                            state: old(self).state,
                            ..*self
                        }) == mid);
                    }
                } else if c == 'n' {
                    self.clear_session_edit_buffer();
                    self.selected_session_field = SessionField::Unset;
                    self.state = CommandState::Idle;
                    proof {
                        crate::app_manager::lemma_wf_editor_closed(old(self), self);
                    }
                }
            },
            Key::Esc => {
                self.state = CommandState::Modify(
                    SessionModifyState::Edit(
                        SessionEditState::EditFields(SessionFieldEditState::Browse),
                    ),
                );
                proof {
                    crate::app_manager::lemma_wf_cursors(old(self), self);
                }
            },
            _ => {},
        }
    }

    fn handle_continue(&mut self, key: Key, now: Timestamp)
        requires
            old(self).wf(),
            now.wf(),
            old(self).state matches CommandState::Modify(SessionModifyState::Continue(_)),
        ensures
            final(self).wf(),
            step_spec(*old(self), *final(self), key, now),
    {
        let confirm = match self.state {
            CommandState::Modify(SessionModifyState::Continue(cf)) => cf,
            _ => ConfirmOpen::No,
        };

        match confirm {
            ConfirmOpen::Yes => {
                match key {
                    Key::Char(c) => {
                        if c == 'y' {
                            self.start_new_session_based_on_selected(now);
                            let ghost mid = *self;
                            self.state = CommandState::Idle;
                            proof {
                                crate::app_manager::lemma_wf_cursors(&mid, self);
                                assert((AppManager { state: old(self).state, ..*self })
                                    == mid);
                            }
                        } else if c == 'n' {
                            self.state = CommandState::Idle;
                            proof {
                                crate::app_manager::lemma_wf_cursors(old(self), self);
                            }
                        }
                    },
                    Key::Esc => {
                        self.state = CommandState::Idle;
                        proof {
                            crate::app_manager::lemma_wf_cursors(old(self), self);
                        }
                    },
                    _ => {},
                }
            },
            ConfirmOpen::No => {
                match key {
                    Key::Esc => {
                        self.state = CommandState::Idle;
                        proof {
                            crate::app_manager::lemma_wf_cursors(old(self), self);
                        }
                    },
                    Key::Up => {
                        let n_sessions = self.sessions.len();
                        if self.selected_session_index < n_sessions
                            && self.selected_session_index + 1 < n_sessions {
                            self.selected_session_index = self.selected_session_index + 1;
                        }
                        proof {
                            crate::app_manager::lemma_wf_cursors(old(self), self);
                        }
                    },
                    Key::Down => {
                        if self.selected_session_index > 0 {
                            self.selected_session_index = self.selected_session_index - 1;
                        }
                        proof {
                            crate::app_manager::lemma_wf_cursors(old(self), self);
                        }
                    },
                    Key::Enter => {
                        self.state = CommandState::Modify(
                            SessionModifyState::Continue(ConfirmOpen::Yes),
                        );
                        proof {
                            crate::app_manager::lemma_wf_cursors(old(self), self);
                        }
                    },
                    _ => {},
                }
            },
        }
    }

    fn handle_delete(&mut self, key: Key, now: Timestamp)
        requires
            old(self).wf(),
            now.wf(),
            old(self).state matches CommandState::Modify(SessionModifyState::Delete(_)),
        ensures
            final(self).wf(),
            step_spec(*old(self), *final(self), key, now),
    {
        let confirm = match self.state {
            CommandState::Modify(SessionModifyState::Delete(cf)) => cf,
            _ => ConfirmOpen::No,
        };

        match confirm {
            ConfirmOpen::Yes => {
                match key {
                    Key::Char(c) => {
                        if c == 'y' {
                            self.delete_selected_session();
                            let ghost mid = *self;
                            self.state = CommandState::Idle;
                            proof {
                                crate::app_manager::lemma_wf_cursors(&mid, self);
                                assert((AppManager { state: old(self).state, ..*self })
                                    == mid);
                            }
                        } else if c == 'n' {
                            self.state = CommandState::Idle;
                            proof {
                                crate::app_manager::lemma_wf_cursors(old(self), self);
                            }
                        }
                    },
                    Key::Esc => {
                        self.state = CommandState::Idle;
                        proof {
                            crate::app_manager::lemma_wf_cursors(old(self), self);
                        }
                    },
                    _ => {},
                }
            },
            ConfirmOpen::No => {
                match key {
                    Key::Esc => {
                        self.state = CommandState::Idle;
                        proof {
                            crate::app_manager::lemma_wf_cursors(old(self), self);
                        }
                    },
                    Key::Up => {
                        let n_sessions = self.sessions.len();
                        if self.selected_session_index < n_sessions
                            && self.selected_session_index + 1 < n_sessions {
                            self.selected_session_index = self.selected_session_index + 1;
                        }
                        proof {
                            crate::app_manager::lemma_wf_cursors(old(self), self);
                        }
                    },
                    Key::Down => {
                        if self.selected_session_index > 0 {
                            self.selected_session_index = self.selected_session_index - 1;
                        }
                        proof {
                            crate::app_manager::lemma_wf_cursors(old(self), self);
                        }
                    },
                    Key::Enter => {
                        self.state = CommandState::Modify(
                            SessionModifyState::Delete(ConfirmOpen::Yes),
                        );
                        proof {
                            crate::app_manager::lemma_wf_cursors(old(self), self);
                        }
                    },
                    _ => {},
                }
            },
        }
    }

    fn handle_end_confirm(&mut self, key: Key, now: Timestamp)
        requires
            old(self).wf(),
            now.wf(),
            old(self).state == CommandState::End,
        ensures
            final(self).wf(),
            step_spec(*old(self), *final(self), key, now),
    {
        match key {
            Key::Char(c) => {
                if c == 'y' {
                    self.end_running_session(now);
                    let ghost mid = *self;
                    self.state = CommandState::Idle;
                    proof {
                        crate::app_manager::lemma_wf_cursors(&mid, self);
                        assert((AppManager { state: old(self).state, ..*self }) == mid);
                    }
                } else if c == 'n' {
                    self.state = CommandState::Idle;
                    proof {
                        crate::app_manager::lemma_wf_cursors(old(self), self);
                    }
                }
            },
            Key::Esc => {
                self.state = CommandState::Idle;
                proof {
                    crate::app_manager::lemma_wf_cursors(old(self), self);
                }
            },
            _ => {},
        }
    }

    fn handle_quitting(&mut self, key: Key, now: Timestamp)
        requires
            old(self).wf(),
            now.wf(),
            old(self).state == CommandState::Quitting,
        ensures
            final(self).wf(),
            step_spec(*old(self), *final(self), key, now),
    {
        match key {
            Key::Char(c) => {
                if c == 'y' {
                    self.end_running_session(now);
                    let ghost mid = *self;
                    self.running = false;
                    proof {
                        lemma_wf_buffers_only(&mid, self);
                        assert((AppManager { running: old(self).running, ..*self })
                            == mid);
                    }
                } else if c == 'n' {
                    self.state = CommandState::Idle;
                    proof {
                        crate::app_manager::lemma_wf_cursors(old(self), self);
                    }
                }
            },
            Key::Esc => {
                self.state = CommandState::Idle;
                proof {
                    crate::app_manager::lemma_wf_cursors(old(self), self);
                }
            },
            _ => {},
        }
    }

    /// While the field cursor rests on the tag field, re-point the transient
    /// tag cursor at the staged copy's tag, for the dropdown the renderer
    /// shows.
    fn sync_tag_cursor(&mut self)
        requires
            old(self).wf(),
        ensures
            final(self).wf(),
            if old(self).selected_session_field matches SessionField::Tag(_) && old(
                self,
            ).session_edit_buffer is Some {
                &&& *final(self) == (AppManager {
                    temp_tag_index: final(self).temp_tag_index,
                    ..*old(self)
                })
                &&& final(self).temp_tag_index < old(self).tags@.len()
                &&& old(self).tags@[final(self).temp_tag_index as int]@ == old(
                    self,
                ).session_edit_buffer->Some_0.tag@
            } else {
                *final(self) == *old(self)
            },
    {
        let is_tag = matches!(&self.selected_session_field, SessionField::Tag(_));
        if is_tag {
            let tag = match &self.session_edit_buffer {
                Some(b) => Some(b.tag.clone()),
                None => None,
            };
            match tag {
                Some(t) => {
                    let idx = self.get_index_of_tag(&t);
                    self.temp_tag_index = idx;
                    proof {
                        crate::app_manager::lemma_wf_cursors(old(self), self);
                    }
                },
                None => {},
            }
        }
    }
}

/// Text that fits a line field still fits after a filtered character is
/// appended.
proof fn lemma_clean_push(s: Seq<char>, c: char, sep: char)
    requires
        clean_text(s, sep),
        c != sep,
        c != '\n',
    ensures
        clean_text(s.push(c), sep),
{
    assert forall|i: int| 0 <= i < s.push(c).len() implies s.push(c)[i] != sep && s.push(c)[i]
        != '\n' by {
        if i < s.len() {
            assert(s.push(c)[i] == s[i]);
        }
    }
}

/// Text that fits a line field still fits after its last character is
/// removed.
proof fn lemma_clean_shrink(s: Seq<char>, s2: Seq<char>, sep: char)
    requires
        clean_text(s, sep),
        s2 == (if s.len() > 0 {
            s.drop_last()
        } else {
            s
        }),
    ensures
        clean_text(s2, sep),
{
    assert forall|i: int| 0 <= i < s2.len() implies s2[i] != sep && s2[i] != '\n' by {
        assert(s2[i] == s[i]);
    }
}

/// Ending the running session and immediately starting the composed one
/// combine into `end_then_start_effect`.
proof fn lemma_end_then_start(
    pre: AppManager,
    mid1: AppManager,
    mid2: AppManager,
    post: AppManager,
    now: Timestamp,
)
    requires
        pre.wf(),
        pre.last_running(),
        crate::app_manager::end_effect(pre, mid1, now),
        crate::app_manager::start_effect(mid1, mid2, now),
        post == (AppManager { state: post.state, ..mid2 }),
        post.state is Idle,
    ensures
        end_then_start_effect(pre, post, now) && post.state is Idle,
{
    let n = pre.sessions@.len() as int;
    assert(!mid1.last_running());
    assert(mid1.description_buffer@ == pre.description_buffer@);
    assert(mid1.tags@ == pre.tags@);
    let trimmed = trim_spec(pre.description_buffer@);
    let start_ok = pre.selected_tag_index < pre.tags@.len() && trimmed.len() > 0;
    if start_ok {
        assert(post.sessions@.len() == n + 1);
        assert forall|i: int| 0 <= i < n - 1 implies #[trigger] post.sessions@[i]
            == pre.sessions@[i] by {
            assert(post.sessions@[i] == mid1.sessions@[i]);
        }
        assert(post.sessions@[n - 1] == mid1.sessions@[n - 1]);
    } else {
        assert(post.sessions@ == mid1.sessions@);
        assert(post.sessions@[n - 1] == mid1.sessions@[n - 1]);
        assert forall|i: int| 0 <= i < n - 1 implies #[trigger] post.sessions@[i]
            == pre.sessions@[i] by {
            assert(post.sessions@[i] == mid1.sessions@[i]);
        }
    }
    assert(post.session_log_lines() == mid1.session_log_lines());
    assert(crate::session::db_line_spec(post.sessions@[n - 1], pre.value_separator)
        == crate::session::db_line_spec(mid1.sessions@[n - 1], mid1.value_separator));
}

} // verus!
