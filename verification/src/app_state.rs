//! The nested tagged unions that name every interaction mode of the tracker,
//! and the field cursor used while a session is being edited.

use vstd::prelude::*;
use crate::timestamp::Timestamp;

verus! {

/// The top-level interaction mode.
#[derive(Clone, Copy, PartialEq, Eq, Structural, Debug)]
pub enum CommandState {
    /// Browsing the session list.
    Idle,
    /// Composing a new session.
    New(SessionInputState),
    /// Acting on a selected existing session.
    Modify(SessionModifyState),
    /// Confirming the end of the running session.
    End,
    /// Confirming exit.
    Quitting,
}

/// Which part of a new session is being entered.
#[derive(Clone, Copy, PartialEq, Eq, Structural, Debug)]
pub enum SessionInputState {
    /// Free-text description input; `Yes` means a session is already running
    /// and ending it must be confirmed before the new one starts.
    Description(ConfirmOpen),
    Tag(TagInputState),
}

/// What is being done to the selected existing session.
#[derive(Clone, Copy, PartialEq, Eq, Structural, Debug)]
pub enum SessionModifyState {
    Edit(SessionEditState),
    Continue(ConfirmOpen),
    Delete(ConfirmOpen),
}

/// Progress through an edit of the selected session.
#[derive(Clone, Copy, PartialEq, Eq, Structural, Debug)]
pub enum SessionEditState {
    /// Choosing which session to edit.
    Browse,
    /// Working on the copied session's fields.
    EditFields(SessionFieldEditState),
    /// Confirming whether pending changes are kept.
    Confirm,
}

/// Within field editing: moving the cursor, or changing the current field.
#[derive(Clone, Copy, PartialEq, Eq, Structural, Debug)]
pub enum SessionFieldEditState {
    Browse,
    Editing,
}

/// How the tag of a new session is chosen.
#[derive(Clone, Copy, PartialEq, Eq, Structural, Debug)]
pub enum TagInputState {
    /// Picking from the registered tags.
    Select,
    /// Typing a new tag.
    New,
    /// Reserved confirmation sub-state; no key reaches it.
    Delete(ConfirmOpen),
}

/// Whether a confirmation prompt is open.
#[derive(Clone, Copy, PartialEq, Eq, Structural, Debug)]
pub enum ConfirmOpen {
    Yes,
    No,
}

/// The field cursor of the session editor, carrying the staged value of the
/// field it rests on.
#[derive(Clone, Debug)]
pub enum SessionField {
    Date(Timestamp),
    Description(String),
    Tag(String),
    Start(Timestamp),
    End(Option<Timestamp>),
    Unset,
}

/// Text that can sit inside one field of a persisted line: free of the field
/// separator and of line breaks.
pub open spec fn clean_text(s: Seq<char>, sep: char) -> bool {
    forall|i: int| 0 <= i < s.len() ==> s[i] != sep && s[i] != '\n'
}

/// Trimming keeps text clean: each trimmed character occurs in the original.
pub proof fn lemma_trim_clean(s: Seq<char>, sep: char)
    requires
        clean_text(s, sep),
    ensures
        clean_text(crate::text::trim_spec(s), sep),
{
    crate::text::lemma_trim_chars_subset(s);
    assert forall|i: int| 0 <= i < crate::text::trim_spec(s).len() implies crate::text::trim_spec(
        s,
    )[i] != sep && crate::text::trim_spec(s)[i] != '\n' by {
        let j = choose|j: int| 0 <= j < s.len() && s[j] == crate::text::trim_spec(s)[i];
        assert(s[j] != sep && s[j] != '\n');
    }
}


/// Whether `s` is free of the separator and of line breaks.
pub fn is_clean_text(s: &String, sep: char) -> (r: bool)
    ensures
        r == clean_text(s@, sep),
{
    let cs = crate::text::str_chars(s.as_str());
    let n = cs.len();
    let mut i: usize = 0;
    while i < n
        invariant
            n == cs@.len(),
            cs@ == s@,
            i <= n,
            forall|j: int| 0 <= j < i ==> s@[j] != sep && s@[j] != '\n',
        decreases n - i,
    {
        if cs[i] == sep || cs[i] == '\n' {
            return false;
        }
        i = i + 1;
    }
    true
}

impl SessionField {
    /// The staged value is usable: timestamps well formed, text clean.
    pub open spec fn wf(&self, sep: char) -> bool {
        match self {
            SessionField::Date(t) => t.wf(),
            SessionField::Description(s) => clean_text(s@, sep),
            SessionField::Tag(s) => clean_text(s@, sep),
            SessionField::Start(t) => t.wf(),
            SessionField::End(e) => match e {
                Some(t) => t.wf(),
                None => true,
            },
            SessionField::Unset => true,
        }
    }

    /// The column this field occupies in the session list, date first.
    pub open spec fn index_spec(&self) -> int {
        match self {
            SessionField::Unset => 0,
            SessionField::Date(_) => 0,
            SessionField::Description(_) => 1,
            SessionField::Tag(_) => 2,
            SessionField::Start(_) => 3,
            SessionField::End(_) => 4,
        }
    }
}

} // verus!
