//! The tracker itself: the session list, the tag registry, the session
//! editor's staging buffer, the persisted-log model, and the current command
//! state, together with every operation a key event can trigger.
//!
//! Two invariants carry the whole design and are part of [`AppManager::wf`]:
//! at most one session is running and it is always the newest entry
//! (`sessions_wf`), and the persisted session log holds one line per ended
//! session, in order, and nothing else (`files_wf`) — a running session lives
//! only in memory until it ends.

use vstd::prelude::*;
use crate::app_state::{
    clean_text, is_clean_text, CommandState, ConfirmOpen, SessionEditState, SessionField,
    SessionFieldEditState, SessionInputState, SessionModifyState, TagInputState,
};
use crate::control_keys::Key;
use crate::database_handler::{line_ok, DatabaseHandler};
use crate::io::Out;
use crate::session::{db_line_spec, parse_line_spec, sep_ok, Session};
use crate::text::{trim_spec, trim_string};
use crate::timestamp::Timestamp;

verus! {

/// The mutable context of the whole tracker.
pub struct AppManager {
    pub version: String,
    pub renderer: Out,
    pub database_handler: DatabaseHandler,
    pub value_separator: char,
    pub running: bool,
    pub tags: Vec<String>,
    pub temp_tag_index: usize,
    pub selected_session_index: usize,
    pub selected_session_field: SessionField,
    pub selected_datetime_segment: usize,
    pub selected_tag_index: usize,
    pub sessions: Vec<Session>,
    pub state: CommandState,
    pub description_buffer: String,
    pub tag_buffer: String,
    pub session_edit_buffer: Option<Session>,
}

impl AppManager {
    /// The newest session exists and is still running.
    pub open spec fn last_running(&self) -> bool {
        self.sessions@.len() > 0 && self.sessions@[self.sessions@.len() - 1].running()
    }

    /// How many sessions the persisted log holds: every ended one, never the
    /// running one.
    pub open spec fn persisted_count(&self) -> int {
        if self.last_running() {
            self.sessions@.len() - 1
        } else {
            self.sessions@.len() as int
        }
    }

    /// The lines of the persisted session log.
    pub open spec fn session_log_lines(&self) -> Seq<Seq<char>> {
        self.database_handler.sessions_view()
    }

    /// The lines of the persisted tag log.
    pub open spec fn tag_log_lines(&self) -> Seq<Seq<char>> {
        self.database_handler.tags_view()
    }

    /// `t` is a registered tag.
    pub open spec fn tag_known(&self, t: Seq<char>) -> bool {
        exists|j: int| 0 <= j < self.tags@.len() && (#[trigger] self.tags@[j])@ == t
    }

    /// The staged copy differs from the selected session in some field.
    pub open spec fn pending_changes_spec(&self) -> bool {
        &&& self.selected_session_index < self.sessions@.len()
        &&& self.session_edit_buffer matches Some(b) && !crate::session::sess_eq_spec(
            self.sessions@[self.selected_session_index as int],
            b,
        )
    }

    /// The session editor holds a staged copy: the modes in which field edits
    /// happen or await confirmation.
    pub open spec fn editor_open(&self) -> bool {
        ||| self.state matches CommandState::Modify(
            SessionModifyState::Edit(SessionEditState::EditFields(_)),
        )
        ||| self.state matches CommandState::Modify(
            SessionModifyState::Edit(SessionEditState::Confirm),
        )
    }

    /// Every session fits the line format, refers to a registered tag, and
    /// only the newest may be running.
    pub open spec fn sessions_wf(&self) -> bool {
        &&& forall|i: int|
            0 <= i < self.sessions@.len() ==> (#[trigger] self.sessions@[i]).wf(
                self.value_separator,
            )
        &&& forall|i: int|
            0 <= i < self.sessions@.len() ==> self.tag_known((#[trigger] self.sessions@[i]).tag@)
        &&& forall|i: int|
            0 <= i < self.sessions@.len() - 1 ==> !(#[trigger] self.sessions@[i]).running()
    }

    /// Tags are nonempty, trimmed, line-format clean, and pairwise distinct.
    pub open spec fn tags_wf(&self) -> bool {
        &&& forall|k: int|
            0 <= k < self.tags@.len() ==> {
                let t = (#[trigger] self.tags@[k])@;
                t.len() > 0 && clean_text(t, self.value_separator) && trim_spec(t) == t
            }
        &&& forall|k: int, l: int|
            0 <= k < l < self.tags@.len() ==> (#[trigger] self.tags@[k])@ != (
            #[trigger] self.tags@[l])@
    }

    /// The persisted logs mirror memory: one parseable line per ended
    /// session, in order, and exactly the registered tags.
    pub open spec fn files_wf(&self) -> bool {
        &&& self.database_handler.wf()
        &&& self.session_log_lines().len() == self.persisted_count()
        &&& forall|i: int|
            0 <= i < self.persisted_count() ==> parse_line_spec(
                #[trigger] self.session_log_lines()[i],
                self.value_separator,
            ) == Some(self.sessions@[i].stored_view())
        &&& self.tag_log_lines() == self.tags.deep_view()
    }

    /// Selection cursors stay in range.
    pub open spec fn indices_wf(&self) -> bool {
        &&& if self.tags@.len() > 0 {
            self.selected_tag_index < self.tags@.len() && self.temp_tag_index < self.tags@.len()
        } else {
            self.selected_tag_index == 0 && self.temp_tag_index == 0
        }
        &&& (self.state matches CommandState::Modify(SessionModifyState::Edit(_))
            ==> self.selected_session_index < self.sessions@.len())
    }

    /// The staging buffer exists exactly while the editor is open, copies the
    /// selected session's running status, and stages only usable values.
    pub open spec fn editor_wf(&self) -> bool {
        &&& self.selected_session_field.wf(self.value_separator)
        &&& (self.selected_session_field matches SessionField::Tag(x) ==> self.tag_known(x@))
        &&& if self.editor_open() {
            self.session_edit_buffer matches Some(b) && b.wf(self.value_separator)
                && self.tag_known(b.tag@) && (b.running()
                <==> self.sessions@[self.selected_session_index as int].running()) && (
            self.selected_session_field matches SessionField::End(v) ==> v == b.end)
        } else {
            self.session_edit_buffer is None
        }
    }

    /// The free-text input buffers never hold what a line field cannot.
    pub open spec fn buffers_wf(&self) -> bool {
        &&& clean_text(self.description_buffer@, self.value_separator)
        &&& clean_text(self.tag_buffer@, self.value_separator)
    }

    /// The tracker's whole invariant; every reachable state satisfies it.
    pub open spec fn wf(&self) -> bool {
        &&& sep_ok(self.value_separator)
        &&& self.value_separator != ' '
        &&& self.sessions_wf()
        &&& self.tags_wf()
        &&& self.files_wf()
        &&& self.indices_wf()
        &&& self.editor_wf()
        &&& self.buffers_wf()
    }
}

/// A known tag stays known when the registry is unchanged or has grown at
/// the end.
pub proof fn lemma_tag_known_extend(a: &AppManager, b: &AppManager, t: Seq<char>)
    requires
        a.tag_known(t),
        a.tags@.len() <= b.tags@.len(),
        forall|j: int| 0 <= j < a.tags@.len() ==> #[trigger] b.tags@[j] == a.tags@[j],
    ensures
        b.tag_known(t),
{
    let j = choose|j: int| 0 <= j < a.tags@.len() && (#[trigger] a.tags@[j])@ == t;
    assert(b.tags@[j]@ == t);
}

/// What a successful load demands of the two files' lines, after blank-line
/// compaction: no stray line breaks, every session line parseable, every tag
/// trimmed, field-clean and unique, and every session's tag registered.
pub open spec fn load_ok(session_lines: Seq<Seq<char>>, tag_lines: Seq<Seq<char>>, sep: char) -> bool {
    let sl = crate::database_handler::compact_spec(session_lines);
    let tl = crate::database_handler::compact_spec(tag_lines);
    &&& forall|k: int| 0 <= k < sl.len() ==> line_ok(#[trigger] sl[k])
    &&& forall|k: int| 0 <= k < tl.len() ==> line_ok(#[trigger] tl[k])
    &&& forall|k: int| 0 <= k < sl.len() ==> parse_line_spec(#[trigger] sl[k], sep) is Some
    &&& forall|k: int|
        0 <= k < tl.len() ==> clean_text(#[trigger] tl[k], sep) && trim_spec(tl[k]) == tl[k]
    &&& forall|k: int, l: int| 0 <= k < l < tl.len() ==> #[trigger] tl[k] != #[trigger] tl[l]
    &&& forall|k: int|
        0 <= k < sl.len() ==> exists|j: int|
            0 <= j < tl.len() && tl[j] == (parse_line_spec(#[trigger] sl[k], sep)->Some_0).tag
}

/// What submitting the tag buffer does: a trimmed-empty or duplicate tag is
/// silently rejected and changes nothing but the buffer; otherwise the tag
/// joins the registry and its log and becomes selected.
pub open spec fn store_tag_effect(pre: AppManager, post: AppManager) -> bool {
    let trimmed = trim_spec(pre.tag_buffer@);
    if trimmed.len() == 0 || pre.tag_known(trimmed) {
        &&& post == (AppManager { tag_buffer: post.tag_buffer, ..pre })
        &&& post.tag_buffer@ == trimmed
    } else {
        &&& post == (AppManager {
            tags: post.tags,
            database_handler: post.database_handler,
            selected_tag_index: post.selected_tag_index,
            tag_buffer: post.tag_buffer,
            ..pre
        })
        &&& post.tags@.len() == pre.tags@.len() + 1
        &&& forall|j: int| 0 <= j < pre.tags@.len() ==> #[trigger] post.tags@[j] == pre.tags@[j]
        &&& post.tags@.last()@ == trimmed
        &&& post.selected_tag_index == pre.tags@.len()
        &&& post.tag_log_lines() == pre.tag_log_lines() + seq![trimmed]
        &&& post.session_log_lines() == pre.session_log_lines()
        &&& post.tag_buffer@.len() == 0
    }
}

/// What a start request does: with a selected tag, a nonempty trimmed
/// description and no session running, a new running session joins the list
/// in memory only; otherwise nothing changes but the description buffer,
/// which keeps its trimmed form.
pub open spec fn start_effect(pre: AppManager, post: AppManager, now: Timestamp) -> bool {
    let trimmed = trim_spec(pre.description_buffer@);
    let ok = pre.selected_tag_index < pre.tags@.len() && trimmed.len() > 0 && !pre.last_running();
    if ok {
        &&& post == (AppManager {
            sessions: post.sessions,
            description_buffer: post.description_buffer,
            ..pre
        })
        &&& post.sessions@.len() == pre.sessions@.len() + 1
        &&& forall|i: int|
            0 <= i < pre.sessions@.len() ==> #[trigger] post.sessions@[i] == pre.sessions@[i]
        &&& post.sessions@.last().description@ == trimmed
        &&& post.sessions@.last().tag@ == pre.tags@[pre.selected_tag_index as int]@
        &&& post.sessions@.last().start == now
        &&& post.sessions@.last().end is None
        &&& post.description_buffer@.len() == 0
    } else {
        &&& post == (AppManager { description_buffer: post.description_buffer, ..pre })
        &&& post.description_buffer@ == trimmed
    }
}

/// What an end request does: the running session gets `now` as its end and
/// its line is appended to the session log; without a running session,
/// nothing.
pub open spec fn end_effect(pre: AppManager, post: AppManager, now: Timestamp) -> bool {
    if pre.last_running() {
        &&& post == (AppManager {
            sessions: post.sessions,
            database_handler: post.database_handler,
            ..pre
        })
        &&& post.sessions@.len() == pre.sessions@.len()
        &&& forall|i: int|
            0 <= i < pre.sessions@.len() - 1 ==> #[trigger] post.sessions@[i] == pre.sessions@[i]
        &&& post.sessions@.last().description@ == pre.sessions@.last().description@
        &&& post.sessions@.last().tag@ == pre.sessions@.last().tag@
        &&& post.sessions@.last().start == pre.sessions@.last().start
        &&& post.sessions@.last().end == Some(now)
        &&& post.session_log_lines() == pre.session_log_lines() + seq![
            db_line_spec(post.sessions@.last(), post.value_separator),
        ]
        &&& post.tag_log_lines() == pre.tag_log_lines()
    } else {
        post == pre
    }
}

/// What a confirmed delete does: the selected session leaves memory, its
/// line leaves the log when it had one, and the selection is clamped back
/// into range; with nothing selected, nothing.
pub open spec fn delete_effect(pre: AppManager, post: AppManager) -> bool {
    if pre.sessions@.len() > 0 && pre.selected_session_index < pre.sessions@.len() {
        &&& post == (AppManager {
            sessions: post.sessions,
            database_handler: post.database_handler,
            selected_session_index: post.selected_session_index,
            ..pre
        })
        &&& post.sessions@ == pre.sessions@.remove(pre.selected_session_index as int)
        &&& post.tag_log_lines() == pre.tag_log_lines()
        &&& post.session_log_lines() == (if !pre.sessions@[pre.selected_session_index as int].running() {
            pre.session_log_lines().remove(pre.selected_session_index as int)
        } else {
            pre.session_log_lines()
        })
        &&& post.selected_session_index == (if pre.selected_session_index < post.sessions@.len()
            || post.sessions@.len() == 0 {
            pre.selected_session_index as int
        } else {
            post.sessions@.len() - 1
        })
    } else {
        post == pre
    }
}

/// What copying the selected session into the editor does: the buffer takes
/// a copy, the field cursor rests on the date, and the transient tag cursor
/// points at the session's tag.
pub open spec fn copy_effect(pre: AppManager, post: AppManager) -> bool {
    if pre.selected_session_index < pre.sessions@.len() {
        &&& post == (AppManager {
            session_edit_buffer: post.session_edit_buffer,
            selected_session_field: post.selected_session_field,
            temp_tag_index: post.temp_tag_index,
            ..pre
        })
        &&& post.session_edit_buffer == Some(
            pre.sessions@[pre.selected_session_index as int],
        )
        &&& post.selected_session_field == SessionField::Date(
            pre.sessions@[pre.selected_session_index as int].start,
        )
        &&& post.temp_tag_index < pre.tags@.len()
        &&& pre.tags@[post.temp_tag_index as int]@ == pre.sessions@[pre.selected_session_index
            as int].tag@
    } else {
        post == pre
    }
}

/// What confirming an edit does: the staged copy's fields land on the
/// selected session, and an ended result has the whole session log
/// rewritten; a still-running result stays memory-only.
pub open spec fn apply_effect(pre: AppManager, post: AppManager) -> bool {
    match pre.session_edit_buffer {
        Some(b) => if pre.selected_session_index < pre.sessions@.len() {
            &&& post == (AppManager {
                sessions: post.sessions,
                database_handler: post.database_handler,
                ..pre
            })
            &&& post.sessions@ == pre.sessions@.update(pre.selected_session_index as int, b)
            &&& post.tag_log_lines() == pre.tag_log_lines()
            &&& if b.running() {
                post.session_log_lines() == pre.session_log_lines()
            } else {
                post.session_log_lines().len() == post.persisted_count() && forall|i: int|
                    0 <= i < post.persisted_count() ==> post.session_log_lines()[i]
                        == db_line_spec(#[trigger] post.sessions@[i], post.value_separator)
            }
        } else {
            post == pre
        },
        None => post == pre,
    }
}

/// What a confirmed continue does: the selected ended session's description
/// and tag are taken over and a start request runs on them.
pub open spec fn continue_effect(pre: AppManager, post: AppManager, now: Timestamp) -> bool {
    let sel = pre.selected_session_index as int;
    if sel < pre.sessions@.len() && !pre.sessions@[sel].running() {
        let trimmed = trim_spec(pre.sessions@[sel].description@);
        let ok = trimmed.len() > 0 && !pre.last_running();
        &&& post.selected_tag_index < pre.tags@.len()
        &&& pre.tags@[post.selected_tag_index as int]@ == pre.sessions@[sel].tag@
        &&& if ok {
            &&& post == (AppManager {
                sessions: post.sessions,
                description_buffer: post.description_buffer,
                selected_tag_index: post.selected_tag_index,
                ..pre
            })
            &&& post.sessions@.len() == pre.sessions@.len() + 1
            &&& forall|i: int|
                0 <= i < pre.sessions@.len() ==> #[trigger] post.sessions@[i] == pre.sessions@[i]
            &&& post.sessions@.last().description@ == trimmed
            &&& post.sessions@.last().tag@ == pre.sessions@[sel].tag@
            &&& post.sessions@.last().start == now
            &&& post.sessions@.last().end is None
            &&& post.description_buffer@.len() == 0
        } else {
            &&& post == (AppManager {
                description_buffer: post.description_buffer,
                selected_tag_index: post.selected_tag_index,
                ..pre
            })
            &&& post.description_buffer@ == trimmed
        }
    } else {
        post == pre
    }
}

/// The invariant only watches the domain fields: a change confined to the
/// free-text buffers keeps a well-formed tracker well formed.
pub proof fn lemma_wf_buffers_only(a: &AppManager, b: &AppManager)
    requires
        a.wf(),
        b.tags == a.tags,
        b.sessions == a.sessions,
        b.database_handler == a.database_handler,
        b.value_separator == a.value_separator,
        b.selected_tag_index == a.selected_tag_index,
        b.temp_tag_index == a.temp_tag_index,
        b.selected_session_index == a.selected_session_index,
        b.state == a.state,
        b.session_edit_buffer == a.session_edit_buffer,
        b.selected_session_field == a.selected_session_field,
        clean_text(b.description_buffer@, b.value_separator),
        clean_text(b.tag_buffer@, b.value_separator),
    ensures
        b.wf(),
{
    assert(b.tags@ == a.tags@);
    assert forall|t: Seq<char>| a.tag_known(t) implies b.tag_known(t) by {
        let j = choose|j: int| 0 <= j < a.tags@.len() && (#[trigger] a.tags@[j])@ == t;
        assert(b.tags@[j]@ == t);
    }
    assert forall|i: int|
        0 <= i < b.sessions@.len() implies b.tag_known((#[trigger] b.sessions@[i]).tag@) by {
        assert(a.tag_known(a.sessions@[i].tag@));
    }
    assert(b.sessions_wf());
    assert(b.tags_wf());
    assert(b.files_wf());
    assert(b.indices_wf());
    if b.editor_open() {
        assert(a.editor_open());
        assert(a.tag_known(a.session_edit_buffer->Some_0.tag@));
    }
    match &b.selected_session_field {
        SessionField::Tag(x) => {
            assert(a.tag_known(x@));
        },
        _ => {},
    }
    assert(b.editor_wf());
    assert(b.buffers_wf());
}

/// The staged value the field cursor carries when it moves right from `f`
/// over the buffer `b`.
pub open spec fn next_field_spec(f: SessionField, b: Session) -> SessionField {
    match f {
        SessionField::Date(_) => SessionField::Description(b.description),
        SessionField::Description(_) => SessionField::Tag(b.tag),
        SessionField::Tag(_) => SessionField::Start(b.start),
        SessionField::Start(_) => SessionField::End(b.end),
        SessionField::End(_) => SessionField::End(b.end),
        SessionField::Unset => SessionField::Unset,
    }
}

/// The staged value the field cursor carries when it moves left from `f`
/// over the buffer `b`.
pub open spec fn prev_field_spec(f: SessionField, b: Session) -> SessionField {
    match f {
        SessionField::Date(_) => SessionField::Date(b.start),
        SessionField::Description(_) => SessionField::Date(b.start),
        SessionField::Tag(_) => SessionField::Description(b.description),
        SessionField::Start(_) => SessionField::Tag(b.tag),
        SessionField::End(_) => SessionField::Start(b.start),
        SessionField::Unset => SessionField::Unset,
    }
}

/// A field-cursor move that reloads its value from the editor buffer keeps
/// the tracker well formed.
proof fn lemma_field_cursor_wf(a: &AppManager, b: &AppManager)
    requires
        a.wf(),
        a.session_edit_buffer is Some,
        *b == (AppManager { selected_session_field: b.selected_session_field, ..*a }),
        b.selected_session_field == next_field_spec(
            a.selected_session_field,
            a.session_edit_buffer->Some_0,
        ) || b.selected_session_field == prev_field_spec(
            a.selected_session_field,
            a.session_edit_buffer->Some_0,
        ),
    ensures
        b.wf(),
{
    assert(a.editor_open());
    let buf = a.session_edit_buffer->Some_0;
    assert(buf.wf(a.value_separator));
    assert(a.tag_known(buf.tag@));
    assert forall|t: Seq<char>| a.tag_known(t) implies b.tag_known(t) by {
        let j = choose|j: int| 0 <= j < a.tags@.len() && (#[trigger] a.tags@[j])@ == t;
        assert(b.tags@[j]@ == t);
    }
    assert forall|i: int|
        0 <= i < b.sessions@.len() implies b.tag_known((#[trigger] b.sessions@[i]).tag@) by {
        assert(a.tag_known(a.sessions@[i].tag@));
    }
    assert(b.sessions_wf());
    assert(b.editor_wf());
}

/// Committing one staged field edit into the editor buffer keeps the tracker
/// well formed.
proof fn lemma_buffer_edit_wf(a: &AppManager, b: &AppManager)
    requires
        a.wf(),
        a.session_edit_buffer is Some,
        b.session_edit_buffer is Some,
        *b == (AppManager { session_edit_buffer: b.session_edit_buffer, ..*a }),
        crate::session::set_field_rel(
            a.session_edit_buffer->Some_0,
            a.selected_session_field,
            b.session_edit_buffer->Some_0,
        ),
    ensures
        b.wf(),
{
    assert(a.editor_open());
    let pre = a.session_edit_buffer->Some_0;
    let post = b.session_edit_buffer->Some_0;
    let sep = a.value_separator;
    assert forall|t: Seq<char>| a.tag_known(t) implies b.tag_known(t) by {
        let j = choose|j: int| 0 <= j < a.tags@.len() && (#[trigger] a.tags@[j])@ == t;
        assert(b.tags@[j]@ == t);
    }
    assert forall|i: int|
        0 <= i < b.sessions@.len() implies b.tag_known((#[trigger] b.sessions@[i]).tag@) by {
        assert(a.tag_known(a.sessions@[i].tag@));
    }
    assert(b.sessions_wf());
    match a.selected_session_field {
        SessionField::Date(nd) => {
            assert(post.wf(sep) && post.tag@ == pre.tag@ && (post.running() <==> pre.running()));
        },
        SessionField::Description(nv) => {
            if trim_spec(nv@).len() > 0 {
                crate::app_state::lemma_trim_clean(nv@, sep);
            }
            assert(post.wf(sep) && post.tag@ == pre.tag@ && post.end == pre.end);
        },
        SessionField::Tag(nv) => {
            if trim_spec(nv@).len() > 0 {
                let j = choose|j: int| 0 <= j < a.tags@.len() && (#[trigger] a.tags@[j])@ == nv@;
                assert(trim_spec(nv@) == nv@);
                assert(post.tag@ == nv@);
                assert(b.tags@[j]@ == post.tag@);
                assert(b.tag_known(post.tag@));
                crate::app_state::lemma_trim_clean(nv@, sep);
            }
            assert(post.wf(sep) && post.end == pre.end);
        },
        SessionField::Start(nv) => {
            assert(post.wf(sep) && post.tag@ == pre.tag@ && post.end == pre.end);
        },
        SessionField::End(nv) => {
            assert(nv == pre.end);
            assert(post.wf(sep) && post.tag@ == pre.tag@ && post.end == pre.end);
        },
        SessionField::Unset => {},
    }
    assert(b.tag_known(post.tag@));
    assert(post.running() <==> pre.running());
    assert(b.editor_wf());
}

/// Writing the staged copy onto the selected session keeps the session list
/// well formed: the copy's running status matches the one it replaces.
proof fn lemma_apply_sessions_wf(a: &AppManager, b: &AppManager)
    requires
        a.wf(),
        a.session_edit_buffer is Some,
        a.selected_session_index < a.sessions@.len(),
        b.sessions@ == a.sessions@.update(
            a.selected_session_index as int,
            a.session_edit_buffer->Some_0,
        ),
        *b == (AppManager { sessions: b.sessions, ..*a }),
    ensures
        b.sessions_wf(),
        b.tags_wf(),
{
    assert(a.editor_open());
    let buf = a.session_edit_buffer->Some_0;
    let sel = a.selected_session_index as int;
    assert forall|t: Seq<char>| a.tag_known(t) implies b.tag_known(t) by {
        let j = choose|j: int| 0 <= j < a.tags@.len() && (#[trigger] a.tags@[j])@ == t;
        assert(b.tags@[j]@ == t);
    }
    assert forall|i: int|
        0 <= i < b.sessions@.len() implies b.tag_known((#[trigger] b.sessions@[i]).tag@) by {
        if i == sel {
            assert(a.tag_known(buf.tag@));
        } else {
            assert(b.sessions@[i] == a.sessions@[i]);
            assert(a.tag_known(a.sessions@[i].tag@));
        }
    }
    assert forall|i: int|
        0 <= i < b.sessions@.len() - 1 implies !(#[trigger] b.sessions@[i]).running() by {
        if i == sel {
            assert(buf.running() <==> a.sessions@[sel].running());
            assert(!a.sessions@[i].running());
        } else {
            assert(b.sessions@[i] == a.sessions@[i]);
        }
    }
    assert(b.sessions_wf());
}

/// Moving cursors or switching mode alone keeps the tracker well formed, as
/// long as the new cursors are in range, an open editor stays open (and
/// closed stays closed), and the session selection is untouched while the
/// editor is open.
pub proof fn lemma_wf_cursors(a: &AppManager, b: &AppManager)
    requires
        a.wf(),
        *b == (AppManager {
            selected_session_index: b.selected_session_index,
            temp_tag_index: b.temp_tag_index,
            selected_tag_index: b.selected_tag_index,
            selected_datetime_segment: b.selected_datetime_segment,
            state: b.state,
            ..*a
        }),
        b.editor_open() <==> a.editor_open(),
        if a.tags@.len() > 0 {
            b.temp_tag_index < a.tags@.len() && b.selected_tag_index < a.tags@.len()
        } else {
            b.temp_tag_index == 0 && b.selected_tag_index == 0
        },
        b.state matches CommandState::Modify(SessionModifyState::Edit(_))
            ==> b.selected_session_index < a.sessions@.len(),
        b.editor_open() ==> b.selected_session_index == a.selected_session_index,
    ensures
        b.wf(),
{
    assert forall|t: Seq<char>| a.tag_known(t) implies b.tag_known(t) by {
        let j = choose|j: int| 0 <= j < a.tags@.len() && (#[trigger] a.tags@[j])@ == t;
        assert(b.tags@[j]@ == t);
    }
    assert forall|i: int|
        0 <= i < b.sessions@.len() implies b.tag_known((#[trigger] b.sessions@[i]).tag@) by {
        assert(a.tag_known(a.sessions@[i].tag@));
    }
    assert(b.sessions_wf());
    if b.editor_open() {
        assert(a.tag_known(a.session_edit_buffer->Some_0.tag@));
    }
    match &b.selected_session_field {
        SessionField::Tag(x) => {
            assert(a.tag_known(x@));
        },
        _ => {},
    }
    assert(b.editor_wf());
}

/// Restaging a field value while the editor is open keeps the tracker well
/// formed: the new staged value must be usable, a staged tag registered, and
/// a staged end equal to the buffer's.
pub proof fn lemma_wf_edit_field(a: &AppManager, b: &AppManager)
    requires
        a.wf(),
        a.editor_open(),
        *b == (AppManager {
            selected_session_field: b.selected_session_field,
            temp_tag_index: b.temp_tag_index,
            ..*a
        }),
        b.selected_session_field.wf(a.value_separator),
        b.selected_session_field matches SessionField::Tag(x) ==> a.tag_known(x@),
        b.selected_session_field matches SessionField::End(v) ==> v == a.session_edit_buffer
            ->Some_0.end,
        if a.tags@.len() > 0 {
            b.temp_tag_index < a.tags@.len()
        } else {
            b.temp_tag_index == 0
        },
    ensures
        b.wf(),
{
    assert forall|t: Seq<char>| a.tag_known(t) implies b.tag_known(t) by {
        let j = choose|j: int| 0 <= j < a.tags@.len() && (#[trigger] a.tags@[j])@ == t;
        assert(b.tags@[j]@ == t);
    }
    assert forall|i: int|
        0 <= i < b.sessions@.len() implies b.tag_known((#[trigger] b.sessions@[i]).tag@) by {
        assert(a.tag_known(a.sessions@[i].tag@));
    }
    assert(b.sessions_wf());
    assert(b.editor_open());
    assert(a.tag_known(a.session_edit_buffer->Some_0.tag@));
    assert(b.editor_wf());
}

/// Dropping the staged copy, resting the field cursor, and leaving the
/// editor keep the tracker well formed.
pub proof fn lemma_wf_editor_closed(a: &AppManager, b: &AppManager)
    requires
        a.wf() || (a.sessions_wf() && a.tags_wf() && a.files_wf() && a.indices_wf()
            && a.buffers_wf() && sep_ok(a.value_separator) && a.value_separator != ' '),
        *b == (AppManager {
            session_edit_buffer: None,
            selected_session_field: SessionField::Unset,
            state: b.state,
            ..*a
        }),
        !b.editor_open(),
        b.state matches CommandState::Modify(SessionModifyState::Edit(_))
            ==> b.selected_session_index < b.sessions@.len(),
    ensures
        b.wf(),
{
    assert forall|t: Seq<char>| a.tag_known(t) implies b.tag_known(t) by {
        let j = choose|j: int| 0 <= j < a.tags@.len() && (#[trigger] a.tags@[j])@ == t;
        assert(b.tags@[j]@ == t);
    }
    assert forall|i: int|
        0 <= i < b.sessions@.len() implies b.tag_known((#[trigger] b.sessions@[i]).tag@) by {
        assert(a.tag_known(a.sessions@[i].tag@));
    }
    assert(b.sessions_wf());
    assert(b.editor_wf());
    assert(b.indices_wf());
}

/// Opening the editor on the selected session — its copy staged, the field
/// cursor on the date, the tag cursor on its tag — keeps the tracker well
/// formed.
pub proof fn lemma_wf_open_editor(a: &AppManager, b: &AppManager)
    requires
        a.wf(),
        a.selected_session_index < a.sessions@.len(),
        *b == (AppManager {
            session_edit_buffer: Some(a.sessions@[a.selected_session_index as int]),
            selected_session_field: SessionField::Date(
                a.sessions@[a.selected_session_index as int].start,
            ),
            temp_tag_index: b.temp_tag_index,
            state: b.state,
            ..*a
        }),
        b.temp_tag_index < a.tags@.len(),
        b.editor_open(),
        b.state matches CommandState::Modify(SessionModifyState::Edit(_)),
    ensures
        b.wf(),
{
    assert forall|t: Seq<char>| a.tag_known(t) implies b.tag_known(t) by {
        let j = choose|j: int| 0 <= j < a.tags@.len() && (#[trigger] a.tags@[j])@ == t;
        assert(b.tags@[j]@ == t);
    }
    assert forall|i: int|
        0 <= i < b.sessions@.len() implies b.tag_known((#[trigger] b.sessions@[i]).tag@) by {
        assert(a.tag_known(a.sessions@[i].tag@));
    }
    assert(b.sessions_wf());
    assert(a.tag_known(a.sessions@[a.selected_session_index as int].tag@));
    assert(b.editor_wf());
    assert(b.indices_wf());
}

/// At most one session is ever running, and when one is, it is the newest
/// entry of the list.
pub proof fn lemma_single_running(m: &AppManager)
    requires
        m.wf(),
    ensures
        forall|i: int, j: int|
            0 <= i < m.sessions@.len() && 0 <= j < m.sessions@.len() && (
            #[trigger] m.sessions@[i]).running() && (#[trigger] m.sessions@[j]).running() ==> i
                == j,
        forall|i: int|
            0 <= i < m.sessions@.len() && (#[trigger] m.sessions@[i]).running() ==> i
                == m.sessions@.len() - 1,
{
}

/// A session has a line in the persisted log exactly when it is not running:
/// every ended session's line sits at the session's own position and parses
/// back to it, and the running session has no line.
pub proof fn lemma_persisted_iff_ended(m: &AppManager)
    requires
        m.wf(),
    ensures
        m.session_log_lines().len() == m.persisted_count(),
        forall|i: int|
            0 <= i < m.sessions@.len() && !(#[trigger] m.sessions@[i]).running() ==> i
                < m.persisted_count() && parse_line_spec(
                m.session_log_lines()[i],
                m.value_separator,
            ) == Some(m.sessions@[i].stored_view()),
        forall|i: int|
            0 <= i < m.sessions@.len() && (#[trigger] m.sessions@[i]).running() ==> i
                >= m.persisted_count(),
{
    assert forall|i: int|
        0 <= i < m.sessions@.len() && !(#[trigger] m.sessions@[i]).running() implies i
        < m.persisted_count() && parse_line_spec(m.session_log_lines()[i], m.value_separator)
        == Some(m.sessions@[i].stored_view()) by {
        if m.last_running() {
            assert(i != m.sessions@.len() - 1);
        }
    }
}

impl AppManager {
    /// The position of `tag` in the registry; the first match when several
    /// lines were equal, which the registry's uniqueness rules out.
    pub fn get_index_of_tag(&self, tag: &String) -> (r: usize)
        requires
            self.tag_known(tag@),
        ensures
            r < self.tags@.len(),
            self.tags@[r as int]@ == tag@,
            forall|j: int| 0 <= j < r ==> (#[trigger] self.tags@[j])@ != tag@,
    {
        let n = self.tags.len();
        let mut i: usize = 0;
        while i < n
            invariant
                n == self.tags@.len(),
                i <= n,
                self.tag_known(tag@),
                forall|j: int| 0 <= j < i ==> (#[trigger] self.tags@[j])@ != tag@,
            decreases n - i,
        {
            if self.tags[i] == *tag {
                return i;
            }
            i = i + 1;
        }
        proof {
            let j = choose|j: int| 0 <= j < self.tags@.len() && (#[trigger] self.tags@[j])@ == tag@;
            assert(false);
        }
        0
    }

    pub fn set_selected_tag_index(&mut self, index: usize)
        requires
            old(self).wf(),
            index < old(self).tags@.len(),
        ensures
            final(self).wf(),
            *final(self) == (AppManager { selected_tag_index: index, ..*old(self) }),
    {
        self.selected_tag_index = index;
        proof {
            assert(forall|i: int|
                0 <= i < self.sessions@.len() ==> (#[trigger] self.sessions@[i]).wf(
                    self.value_separator,
                ));
            assert forall|i: int|
                0 <= i < self.sessions@.len() implies self.tag_known(
                (#[trigger] self.sessions@[i]).tag@,
            ) by {
                assert(old(self).tag_known(old(self).sessions@[i].tag@));
                let j = choose|j: int|
                    0 <= j < old(self).tags@.len() && (#[trigger] old(self).tags@[j])@ == old(self).sessions@[i].tag@;
                assert(self.tags@[j]@ == self.sessions@[i].tag@);
            }
            assert(forall|i: int|
                0 <= i < self.sessions@.len() - 1 ==> !(#[trigger] self.sessions@[i]).running());
            assert(self.sessions_wf());
            assert(self.tags_wf());
            assert(self.files_wf());
            assert(self.indices_wf());
            assert(self.editor_wf());
            assert(self.buffers_wf());
        }
    }

    pub fn get_selected_tag_index(&self) -> (r: usize)
        ensures
            r == self.selected_tag_index,
    {
        self.selected_tag_index
    }

    pub fn is_last_session_still_running(&self) -> (r: bool)
        ensures
            r == self.last_running(),
    {
        if self.sessions.len() == 0 {
            return false;
        }
        self.sessions[self.sessions.len() - 1].is_running()
    }

    /// The column index of the editor's field cursor.
    pub fn get_selected_session_field_index(&self) -> (r: usize)
        ensures
            r as int == self.selected_session_field.index_spec(),
    {
        match self.selected_session_field {
            SessionField::Unset => 0,
            SessionField::Date(_) => 0,
            SessionField::Description(_) => 1,
            SessionField::Tag(_) => 2,
            SessionField::Start(_) => 3,
            SessionField::End(_) => 4,
        }
    }

    /// Register the typed tag: trim it, silently reject an empty or already
    /// registered result, otherwise append it to the registry and the tag
    /// log and select it. A rejected submission changes neither the
    /// registry's length nor the selection.
    pub fn try_store_tag(&mut self)
        requires
            old(self).wf(),
        ensures
            final(self).wf(),
            store_tag_effect(*old(self), *final(self)),
    {
        let trimmed = trim_string(&self.tag_buffer);
        proof {
            crate::app_state::lemma_trim_clean(old(self).tag_buffer@, self.value_separator);
            crate::text::lemma_trim_idempotent(old(self).tag_buffer@);
        }
        self.tag_buffer = trimmed;
        proof {
            lemma_wf_buffers_only(old(self), self);
        }
        if self.tag_buffer.as_str().is_empty() {
            return ;
        }
        let n = self.tags.len();
        let mut i: usize = 0;
        while i < n
            invariant
                n == self.tags@.len(),
                i <= n,
                self.wf(),
                *self == (AppManager { tag_buffer: self.tag_buffer, ..*old(self) }),
                forall|j: int| 0 <= j < i ==> (#[trigger] self.tags@[j])@ != self.tag_buffer@,
                self.tag_buffer@ == trim_spec(old(self).tag_buffer@),
                self.tag_buffer@.len() > 0,
            decreases n - i,
        {
            if self.tags[i] == self.tag_buffer {
                proof {
                    assert(old(self).tags@[i as int]@ == trim_spec(old(self).tag_buffer@));
                    assert(old(self).tag_known(trim_spec(old(self).tag_buffer@)));
                }
                return ;
            }
            i = i + 1;
        }
        proof {
            assert(!old(self).tag_known(trim_spec(old(self).tag_buffer@)));
        }
        let ghost pre = *self;
        self.tags.push(self.tag_buffer.clone());
        self.database_handler.export_tag(&self.tag_buffer);
        self.selected_tag_index = self.tags.len() - 1;
        self.tag_buffer = String::new();
        proof {
            assert(forall|j: int|
                0 <= j < pre.tags@.len() ==> #[trigger] self.tags@[j] == pre.tags@[j]);
            assert(self.tag_log_lines() =~~= old(self).tag_log_lines() + seq![trim_spec(
                old(self).tag_buffer@,
            )]);
            assert(self.tag_log_lines() =~~= self.tags.deep_view());
            assert forall|i2: int|
                0 <= i2 < self.sessions@.len() implies self.tag_known(
                (#[trigger] self.sessions@[i2]).tag@,
            ) by {
                lemma_tag_known_extend(&pre, self, self.sessions@[i2].tag@);
            }
            assert(self.sessions_wf());
            assert(self.tags_wf());
            assert(self.files_wf());
            assert(self.indices_wf());
            if self.editor_open() {
                lemma_tag_known_extend(&pre, self, self.session_edit_buffer->Some_0.tag@);
            }
            match &self.selected_session_field {
                SessionField::Tag(x) => {
                    lemma_tag_known_extend(&pre, self, x@);
                },
                _ => {},
            }
            assert(self.editor_wf());
        }
    }

    /// Start a new session from the description buffer and the selected tag.
    /// Nothing happens — beyond the buffer keeping its trimmed form — when
    /// the trimmed description is empty, no tag is selected, or a session is
    /// already running: a running session must be ended first, so that at
    /// most one ever runs.
    pub fn try_start_new_session(&mut self, now: Timestamp)
        requires
            old(self).wf(),
            now.wf(),
        ensures
            final(self).wf(),
            start_effect(*old(self), *final(self), now),
    {
        let trimmed = trim_string(&self.description_buffer);
        proof {
            crate::app_state::lemma_trim_clean(
                old(self).description_buffer@,
                self.value_separator,
            );
        }
        self.description_buffer = trimmed;
        proof {
            lemma_wf_buffers_only(old(self), self);
        }
        if self.selected_tag_index >= self.tags.len() {
            return ;
        }
        if self.description_buffer.as_str().is_empty() {
            return ;
        }
        if self.is_last_session_still_running() {
            return ;
        }
        let ghost pre = *self;
        let tag = &self.tags[self.selected_tag_index];
        let session = Session::from(self.description_buffer.as_str(), tag.as_str(), now, None);
        self.sessions.push(session);
        self.description_buffer = String::new();
        proof {
            assert(forall|i: int|
                0 <= i < pre.sessions@.len() ==> #[trigger] self.sessions@[i]
                    == pre.sessions@[i]);
            assert(self.sessions@.last().tag@ == self.tags@[self.selected_tag_index as int]@);
            assert forall|i2: int|
                0 <= i2 < self.sessions@.len() implies self.tag_known(
                (#[trigger] self.sessions@[i2]).tag@,
            ) by {
                if i2 < pre.sessions@.len() {
                    lemma_tag_known_extend(&pre, self, pre.sessions@[i2].tag@);
                } else {
                    assert(self.tags@[self.selected_tag_index as int]@
                        == self.sessions@[i2].tag@);
                }
            }
            assert forall|i2: int|
                0 <= i2 < self.sessions@.len() - 1 implies !(
            #[trigger] self.sessions@[i2]).running() by {
                if i2 == pre.sessions@.len() - 1 {
                    assert(!pre.last_running());
                }
            }
            assert(self.sessions_wf());
            assert(self.last_running());
            assert(self.persisted_count() == pre.persisted_count());
            assert(forall|i2: int|
                0 <= i2 < self.persisted_count() ==> #[trigger] self.sessions@[i2]
                    == pre.sessions@[i2]);
            assert(self.files_wf());
            if self.editor_open() {
                lemma_tag_known_extend(&pre, self, self.session_edit_buffer->Some_0.tag@);
                assert(self.selected_session_index < pre.sessions@.len());
            }
            match &self.selected_session_field {
                SessionField::Tag(x) => {
                    lemma_tag_known_extend(&pre, self, x@);
                },
                _ => {},
            }
            assert(self.editor_wf());
        }
    }

    /// End the running session at `now`: its end is set and its line is
    /// appended to the session log, making it persisted. A no-op when no
    /// session is running.
    pub fn end_running_session(&mut self, now: Timestamp)
        requires
            old(self).wf(),
            now.wf(),
            !old(self).editor_open(),
        ensures
            final(self).wf(),
            end_effect(*old(self), *final(self), now),
    {
        if !self.is_last_session_still_running() {
            return ;
        }
        let idx = self.sessions.len() - 1;
        let mut ended = self.sessions[idx].clone();
        ended.end = Some(now);
        let line = ended.construct_db_string(self.value_separator);
        let ghost pre = *self;
        self.sessions[idx] = ended;
        proof {
            crate::session::lemma_line_roundtrip(self.sessions@[idx as int], self.value_separator);
            crate::database_handler::lemma_db_line_ok(
                self.sessions@[idx as int],
                self.value_separator,
            );
        }
        self.database_handler.export_session(&line);
        proof {
            assert(forall|i: int|
                0 <= i < pre.sessions@.len() - 1 ==> #[trigger] self.sessions@[i]
                    == pre.sessions@[i]);
            assert(!self.last_running());
            assert(self.persisted_count() == pre.persisted_count() + 1);
            assert forall|i2: int|
                0 <= i2 < self.sessions@.len() implies self.tag_known(
                (#[trigger] self.sessions@[i2]).tag@,
            ) by {
                lemma_tag_known_extend(&pre, self, pre.sessions@[i2].tag@);
                assert(self.sessions@[i2].tag@ == pre.sessions@[i2].tag@);
            }
            assert(self.sessions_wf());
            assert forall|i2: int|
                0 <= i2 < self.persisted_count() implies parse_line_spec(
                #[trigger] self.session_log_lines()[i2],
                self.value_separator,
            ) == Some(self.sessions@[i2].stored_view()) by {
                if i2 < pre.persisted_count() {
                    assert(self.session_log_lines()[i2] == pre.session_log_lines()[i2]);
                    assert(self.sessions@[i2] == pre.sessions@[i2]);
                } else {
                    assert(self.session_log_lines()[i2] == db_line_spec(
                        self.sessions@[idx as int],
                        self.value_separator,
                    ));
                }
            }
            assert(self.files_wf());
            assert(!self.editor_open());
            assert(self.editor_wf());
        }
    }

    /// Whether the staged copy differs from the selected session: deciding
    /// whether leaving the editor needs a confirmation prompt.
    pub fn session_buffer_has_pending_changes(&self) -> (r: bool)
        ensures
            r == self.pending_changes_spec(),
    {
        if self.selected_session_index >= self.sessions.len() {
            return false;
        }
        match &self.session_edit_buffer {
            Some(b) => !(self.sessions[self.selected_session_index] == *b),
            None => false,
        }
    }

    /// Copy the selected session into the editor's staging buffer, rest the
    /// field cursor on its date, and point the transient tag cursor at its
    /// tag. A no-op when nothing is selected. The caller opens the editor
    /// mode that makes the buffer's presence well formed again.
    pub fn copy_selected_session_to_buffer(&mut self)
        requires
            old(self).wf(),
        ensures
            copy_effect(*old(self), *final(self)),
    {
        if self.selected_session_index >= self.sessions.len() {
            return ;
        }
        let selected = self.sessions[self.selected_session_index].clone();
        let idx = self.get_index_of_tag(&selected.tag);
        self.session_edit_buffer = Some(selected);
        let start = match &self.session_edit_buffer {
            Some(b) => b.start,
            None => Timestamp { year: 1, month: 1, day: 1, hour: 0, minute: 0, second: 0 },
        };
        self.selected_session_field = SessionField::Date(start);
        self.temp_tag_index = idx;
    }

    /// Move the editor's field cursor one column to the right, reloading the
    /// staged value of the field it lands on; the cursor stops at the end
    /// field. A no-op while the editor is closed.
    pub fn increment_selected_session_field(&mut self)
        requires
            old(self).wf(),
        ensures
            final(self).wf(),
            match old(self).session_edit_buffer {
                Some(b) => *final(self) == (AppManager {
                    selected_session_field: next_field_spec(old(self).selected_session_field, b),
                    ..*old(self)
                }),
                None => *final(self) == *old(self),
            },
    {
        let ghost pre = *self;
        match &self.session_edit_buffer {
            Some(b) => {
                let next = match &self.selected_session_field {
                    SessionField::Date(_) => SessionField::Description(b.description.clone()),
                    SessionField::Description(_) => SessionField::Tag(b.tag.clone()),
                    SessionField::Tag(_) => SessionField::Start(b.start),
                    SessionField::Start(_) => SessionField::End(b.end),
                    SessionField::End(_) => SessionField::End(b.end),
                    SessionField::Unset => SessionField::Unset,
                };
                self.selected_session_field = next;
                proof {
                    lemma_field_cursor_wf(&pre, self);
                }
            },
            None => {},
        }
    }

    /// Move the editor's field cursor one column to the left, reloading the
    /// staged value of the field it lands on; the cursor stops at the date
    /// field. A no-op while the editor is closed.
    pub fn decrement_selected_session_field(&mut self)
        requires
            old(self).wf(),
        ensures
            final(self).wf(),
            match old(self).session_edit_buffer {
                Some(b) => *final(self) == (AppManager {
                    selected_session_field: prev_field_spec(old(self).selected_session_field, b),
                    ..*old(self)
                }),
                None => *final(self) == *old(self),
            },
    {
        let ghost pre = *self;
        match &self.session_edit_buffer {
            Some(b) => {
                let prev = match &self.selected_session_field {
                    SessionField::Date(_) => SessionField::Date(b.start),
                    SessionField::Description(_) => SessionField::Date(b.start),
                    SessionField::Tag(_) => SessionField::Description(b.description.clone()),
                    SessionField::Start(_) => SessionField::Tag(b.tag.clone()),
                    SessionField::End(_) => SessionField::Start(b.start),
                    SessionField::Unset => SessionField::Unset,
                };
                self.selected_session_field = prev;
                proof {
                    lemma_field_cursor_wf(&pre, self);
                }
            },
            None => {},
        }
    }

    /// Commit the field cursor's staged value into the editor buffer, as
    /// `Session::set_field` applies it. A no-op while the editor is closed.
    pub fn store_modified_field_to_session_buffer(&mut self)
        requires
            old(self).wf(),
        ensures
            final(self).wf(),
            match old(self).session_edit_buffer {
                Some(b) => final(self).session_edit_buffer matches Some(b2)
                    && crate::session::set_field_rel(b, old(self).selected_session_field, b2)
                    && *final(self) == (AppManager {
                    session_edit_buffer: final(self).session_edit_buffer,
                    ..*old(self)
                }),
                None => *final(self) == *old(self),
            },
    {
        let ghost pre = *self;
        let buffer = match &self.session_edit_buffer {
            Some(b) => Some(b.clone()),
            None => None,
        };
        match buffer {
            Some(mut b) => {
                b.set_field(&self.selected_session_field);
                self.session_edit_buffer = Some(b);
                proof {
                    lemma_buffer_edit_wf(&pre, self);
                }
            },
            None => {},
        }
    }

    /// Write the staged copy's fields onto the selected session. When the
    /// result is not running it belongs in the persisted log, whose contents
    /// are rewritten wholesale; a still-running result stays memory-only.
    /// A no-op while the editor holds no staged copy.
    pub fn apply_changes_to_session(&mut self)
        requires
            old(self).wf(),
        ensures
            final(self).wf(),
            apply_effect(*old(self), *final(self)),
    {
        if self.selected_session_index >= self.sessions.len() {
            return ;
        }
        let buffer = match &self.session_edit_buffer {
            Some(b) => Some(b.clone()),
            None => None,
        };
        match buffer {
            Some(b) => {
                let ghost pre = *self;
                let sel = self.selected_session_index;
                let still_running = b.is_running();
                self.sessions[sel] = b;
                proof {
                    assert(self.sessions@ == pre.sessions@.update(
                        sel as int,
                        self.sessions@[sel as int],
                    ));
                    lemma_apply_sessions_wf(&pre, self);
                }
                if !still_running {
                    let ghost mid = *self;
                    let sep = self.value_separator;
                    self.database_handler.export_all_sessions(&self.sessions, sep);
                    proof {
                        assert forall|i: int|
                            0 <= i < self.persisted_count() implies parse_line_spec(
                            #[trigger] self.session_log_lines()[i],
                            self.value_separator,
                        ) == Some(self.sessions@[i].stored_view()) by {
                            crate::session::lemma_line_roundtrip(
                                self.sessions@[i],
                                self.value_separator,
                            );
                        }
                        assert(self.files_wf());
                        assert(self.editor_wf());
                    }
                } else {
                    proof {
                        assert(pre.editor_open() ==> pre.sessions@[pre.selected_session_index
                            as int].running());
                        assert(self.files_wf());
                        assert(self.editor_wf());
                    }
                }
            },
            None => {},
        }
    }

    /// Remove the selected session from memory unconditionally, and its line
    /// from the persisted log only when it was persisted — a running session
    /// never was. The selection is clamped back into range afterwards. A
    /// no-op on an empty list or a selection out of range.
    pub fn delete_selected_session(&mut self)
        requires
            old(self).wf(),
            !(old(self).state matches CommandState::Modify(SessionModifyState::Edit(_))),
        ensures
            final(self).wf(),
            delete_effect(*old(self), *final(self)),
    {
        if self.sessions.len() == 0 {
            return ;
        }
        let sel = self.selected_session_index;
        if sel >= self.sessions.len() {
            return ;
        }
        let ghost pre = *self;
        if !self.sessions[sel].is_running() {
            proof {
                if pre.last_running() {
                    assert(sel as int != pre.sessions@.len() - 1);
                }
                assert((sel as int) < pre.persisted_count());
            }
            self.database_handler.delete_session(sel);
        }
        self.sessions.remove(sel);
        if self.selected_session_index >= self.sessions.len() && self.sessions.len() > 0 {
            self.selected_session_index = self.sessions.len() - 1;
        }
        proof {
            if self.sessions@.len() == 0 {
                assert(self.selected_session_index == sel);
            }
            assert forall|t: Seq<char>| pre.tag_known(t) implies self.tag_known(t) by {
                let j = choose|j: int|
                    0 <= j < pre.tags@.len() && (#[trigger] pre.tags@[j])@ == t;
                assert(self.tags@[j]@ == t);
            }
            assert forall|i: int|
                0 <= i < self.sessions@.len() implies self.tag_known(
                (#[trigger] self.sessions@[i]).tag@,
            ) by {
                if i < sel {
                    assert(self.sessions@[i] == pre.sessions@[i]);
                } else {
                    assert(self.sessions@[i] == pre.sessions@[i + 1]);
                }
                assert(pre.tag_known(self.sessions@[i].tag@));
            }
            assert forall|i: int|
                0 <= i < self.sessions@.len() - 1 implies !(
            #[trigger] self.sessions@[i]).running() by {
                if i < sel {
                    assert(self.sessions@[i] == pre.sessions@[i]);
                } else {
                    assert(self.sessions@[i] == pre.sessions@[i + 1]);
                }
            }
            assert(self.sessions_wf());
            if pre.sessions@[sel as int].running() {
                assert(sel as int == pre.sessions@.len() - 1);
                assert(self.persisted_count() == pre.persisted_count());
                assert forall|i: int|
                    0 <= i < self.persisted_count() implies parse_line_spec(
                    #[trigger] self.session_log_lines()[i],
                    self.value_separator,
                ) == Some(self.sessions@[i].stored_view()) by {
                    assert(self.sessions@[i] == pre.sessions@[i]);
                }
            } else {
                assert(self.persisted_count() == pre.persisted_count() - 1);
                assert forall|i: int|
                    0 <= i < self.persisted_count() implies parse_line_spec(
                    #[trigger] self.session_log_lines()[i],
                    self.value_separator,
                ) == Some(self.sessions@[i].stored_view()) by {
                    if i < sel {
                        assert(self.sessions@[i] == pre.sessions@[i]);
                        assert(self.session_log_lines()[i] == pre.session_log_lines()[i]);
                    } else {
                        assert(self.sessions@[i] == pre.sessions@[i + 1]);
                        assert(self.session_log_lines()[i] == pre.session_log_lines()[i + 1]);
                    }
                }
            }
            assert(self.files_wf());
            assert(!self.editor_open());
            match &self.selected_session_field {
                SessionField::Tag(x) => {
                    assert(pre.tag_known(x@));
                },
                _ => {},
            }
            assert(self.editor_wf());
            assert(self.indices_wf());
        }
    }

    /// Copy the selected ended session's description and tag into the
    /// new-session inputs and start a session from them at `now` — subject
    /// to the running-session rule, like any start. A no-op on a running or
    /// missing selection.
    pub fn start_new_session_based_on_selected(&mut self, now: Timestamp)
        requires
            old(self).wf(),
            now.wf(),
        ensures
            final(self).wf(),
            continue_effect(*old(self), *final(self), now),
    {
        if self.selected_session_index >= self.sessions.len() {
            return ;
        }
        if self.sessions[self.selected_session_index].is_running() {
            return ;
        }
        let description = self.sessions[self.selected_session_index].description.clone();
        let tag = self.sessions[self.selected_session_index].tag.clone();
        let tag_index = self.get_index_of_tag(&tag);
        self.description_buffer = description;
        proof {
            lemma_wf_buffers_only(old(self), self);
        }
        self.set_selected_tag_index(tag_index);
        self.try_start_new_session(now);
    }

    /// A tracker loaded from the lines of the two log files, using the
    /// canonical separator. Blank lines are stripped, every session line
    /// must parse, every tag must be usable and unique, and every session's
    /// tag must be registered: anything else means corrupt or inconsistent
    /// data, on which the tracker refuses to start rather than run on a
    /// partial log. The tag of the newest session starts out selected.
    #[verifier::loop_isolation(false)]
    pub fn new(session_lines: Vec<String>, tag_lines: Vec<String>) -> (r: Option<AppManager>)
        ensures
            r is Some <==> load_ok(session_lines.deep_view(), tag_lines.deep_view(), ';'),
            r matches Some(m) ==> {
                let sl = crate::database_handler::compact_spec(session_lines.deep_view());
                let tl = crate::database_handler::compact_spec(tag_lines.deep_view());
                &&& m.wf()
                &&& m.value_separator == ';'
                &&& m.running == true
                &&& m.state is Idle
                &&& m.sessions@.len() == sl.len()
                &&& forall|i: int|
                    0 <= i < m.sessions@.len() ==> parse_line_spec(sl[i], ';') == Some(
                        (#[trigger] m.sessions@[i]).stored_view(),
                    )
                &&& forall|i: int|
                    0 <= i < m.sessions@.len() ==> (#[trigger] m.sessions@[i]).end == Some(
                        m.sessions@[i].stored_view().end,
                    )
                &&& m.tags.deep_view() == tl
                &&& m.session_log_lines() == sl
                &&& m.tag_log_lines() == tl
                &&& m.session_edit_buffer is None
                &&& m.selected_session_field is Unset
                &&& m.description_buffer@.len() == 0
                &&& m.tag_buffer@.len() == 0
                &&& m.temp_tag_index == 0
                &&& m.selected_session_index == 0
                &&& (m.sessions@.len() > 0 ==> m.selected_tag_index < m.tags@.len()
                    && m.tags@[m.selected_tag_index as int]@ == m.sessions@.last().tag@)
                &&& (m.sessions@.len() == 0 ==> m.selected_tag_index == 0)
            },
    {
        let value_separator = ';';
        let database_handler = match DatabaseHandler::new(session_lines, tag_lines) {
            Some(h) => h,
            None => {
                return None;
            },
        };
        let sessions = match database_handler.import_sessions(value_separator) {
            Some(v) => v,
            None => {
                proof {
                    let sl = database_handler.sessions_view();
                    assert(exists|k: int|
                        0 <= k < sl.len() && !(parse_line_spec(#[trigger] sl[k], ';') is Some));
                    assert(!load_ok(session_lines.deep_view(), tag_lines.deep_view(), ';'));
                }
                return None;
            },
        };
        let tags = match database_handler.import_tags() {
            Some(v) => v,
            None => {
                return None;
            },
        };
        let ghost tl = database_handler.tags_view();
        let n_tags = tags.len();
        let mut i: usize = 0;
        while i < n_tags
            invariant
                n_tags == tags@.len(),
                i <= n_tags,
                tags.deep_view() == tl,
                value_separator == ';',
                forall|k: int|
                    0 <= k < i ==> clean_text(#[trigger] tl[k], ';') && trim_spec(tl[k]) == tl[k],
            decreases n_tags - i,
        {
            proof {
                assert(tags.deep_view()[i as int] == tags@[i as int]@);
            }
            if !is_clean_text(&tags[i], value_separator) {
                proof {
                    assert(!clean_text(tl[i as int], ';'));
                    assert(!load_ok(session_lines.deep_view(), tag_lines.deep_view(), ';'));
                }
                return None;
            }
            let trimmed = trim_string(&tags[i]);
            if !(trimmed == tags[i]) {
                proof {
                    assert(trim_spec(tl[i as int]) != tl[i as int]);
                    assert(!load_ok(session_lines.deep_view(), tag_lines.deep_view(), ';'));
                }
                return None;
            }
            i = i + 1;
        }
        let mut a: usize = 0;
        while a < n_tags
            invariant
                n_tags == tags@.len(),
                a <= n_tags,
                tags.deep_view() == tl,
                forall|k: int, l: int| 0 <= k < l < tl.len() && k < a ==> #[trigger] tl[k] != (
                #[trigger] tl[l]),
            decreases n_tags - a,
        {
            let mut b: usize = a + 1;
            while b < n_tags
                invariant
                    n_tags == tags@.len(),
                    a < b || a + 1 == b,
                    a < n_tags,
                    a + 1 <= b <= n_tags,
                    tags.deep_view() == tl,
                    forall|l: int| a < l < b ==> #[trigger] tl[a as int] != tl[l],
                decreases n_tags - b,
            {
                proof {
                    assert(tags.deep_view()[a as int] == tags@[a as int]@);
                    assert(tags.deep_view()[b as int] == tags@[b as int]@);
                }
                if tags[a] == tags[b] {
                    proof {
                        assert(tl[a as int] == tl[b as int]);
                        assert(!load_ok(session_lines.deep_view(), tag_lines.deep_view(), ';'));
                    }
                    return None;
                }
                b = b + 1;
            }
            a = a + 1;
        }
        let n_sessions = sessions.len();
        let mut si: usize = 0;
        while si < n_sessions
            invariant
                n_sessions == sessions@.len(),
                si <= n_sessions,
                tags.deep_view() == tl,
                n_tags == tags@.len(),
                forall|k: int|
                    0 <= k < si ==> exists|j: int|
                        0 <= j < tl.len() && tl[j] == (#[trigger] sessions@[k]).tag@,
            decreases n_sessions - si,
        {
            let mut j: usize = 0;
            let mut found = false;
            while j < n_tags
                invariant
                    n_tags == tags@.len(),
                    j <= n_tags,
                    si < n_sessions,
                    n_sessions == sessions@.len(),
                    tags.deep_view() == tl,
                    found ==> exists|l: int|
                        0 <= l < tl.len() && tl[l] == sessions@[si as int].tag@,
                    !found ==> forall|l: int| 0 <= l < j ==> #[trigger] tl[l] != sessions@[
                        si as int
                    ].tag@,
                decreases n_tags - j,
            {
                proof {
                    assert(tags.deep_view()[j as int] == tags@[j as int]@);
                }
                if tags[j] == sessions[si].tag {
                    found = true;
                }
                j = j + 1;
            }
            if !found {
                proof {
                    let sl = database_handler.sessions_view();
                    assert(parse_line_spec(sl[si as int], ';') == Some(
                        sessions@[si as int].stored_view(),
                    ));
                    assert((parse_line_spec(sl[si as int], ';')->Some_0).tag == sessions@[
                        si as int
                    ].tag@);
                    assert(!load_ok(session_lines.deep_view(), tag_lines.deep_view(), ';'));
                }
                return None;
            }
            si = si + 1;
        }
        let selected_tag_index: usize = if sessions.len() > 0 {
            let last_tag = sessions[sessions.len() - 1].tag.clone();
            let mut idx: usize = 0;
            let mut ti: usize = 0;
            while ti < n_tags
                invariant
                    n_tags == tags@.len(),
                    ti <= n_tags,
                    tags.deep_view() == tl,
                    last_tag@ == sessions@[sessions@.len() - 1].tag@,
                    n_sessions == sessions@.len(),
                    n_sessions > 0,
                    idx < n_tags || idx == 0,
                    (idx < n_tags && tags@[idx as int]@ == last_tag@) || forall|l: int|
                        0 <= l < ti ==> #[trigger] tl[l] != last_tag@,
                decreases n_tags - ti,
            {
                proof {
                    assert(tags.deep_view()[ti as int] == tags@[ti as int]@);
                }
                if tags[ti] == last_tag {
                    idx = ti;
                    ti = n_tags;
                } else {
                    ti = ti + 1;
                }
            }
            idx
        } else {
            0
        };
        proof {
            assert(load_ok(session_lines.deep_view(), tag_lines.deep_view(), ';')) by {
                let sl = crate::database_handler::compact_spec(session_lines.deep_view());
                assert forall|k: int| 0 <= k < sl.len() implies exists|j: int|
                    0 <= j < tl.len() && tl[j] == (parse_line_spec(
                    #[trigger] sl[k],
                    ';',
                )->Some_0).tag by {
                    assert(parse_line_spec(sl[k], ';') == Some(sessions@[k].stored_view()));
                    assert(exists|j: int| 0 <= j < tl.len() && tl[j] == sessions@[k].tag@);
                }
            }
        }
        let manager = AppManager {
            version: "0.4.6".to_owned(),
            renderer: Out::new(),
            database_handler,
            value_separator,
            running: true,
            tags,
            temp_tag_index: 0,
            selected_session_index: 0,
            selected_session_field: SessionField::Unset,
            selected_datetime_segment: 0,
            selected_tag_index,
            sessions,
            state: CommandState::Idle,
            description_buffer: String::new(),
            tag_buffer: String::new(),
            session_edit_buffer: None,
        };
        proof {
            assert forall|i: int|
                0 <= i < manager.sessions@.len() implies manager.tag_known(
                (#[trigger] manager.sessions@[i]).tag@,
            ) by {
                let j = choose|j: int| 0 <= j < tl.len() && tl[j] == manager.sessions@[i].tag@;
                assert(manager.tags@[j]@ == manager.sessions@[i].tag@);
            }
            assert forall|k: int|
                0 <= k < manager.tags@.len() implies {
                let t = (#[trigger] manager.tags@[k])@;
                t.len() > 0 && clean_text(t, manager.value_separator) && trim_spec(t) == t
            } by {
                assert(manager.tags@[k]@ == tl[k]);
                assert(line_ok(tl[k]));
            }
            assert forall|k: int, l: int|
                0 <= k < l < manager.tags@.len() implies (#[trigger] manager.tags@[k])@ != (
            #[trigger] manager.tags@[l])@ by {
                assert(manager.tags@[k]@ == tl[k] && manager.tags@[l]@ == tl[l]);
            }
            assert(manager.sessions_wf());
            assert(manager.tags_wf());
            assert(manager.files_wf());
            assert(manager.indices_wf());
            assert(manager.editor_wf());
            assert(manager.wf());
        }
        Some(manager)
    }

    /// Drop the staged copy without touching the session list.
    pub fn clear_session_edit_buffer(&mut self)
        ensures
            *final(self) == (AppManager { session_edit_buffer: None, ..*old(self) }),
    {
        self.session_edit_buffer = None;
    }
}

} // verus!
