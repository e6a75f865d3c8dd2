//! The persisted state of the tracker: the line contents of the two flat-file
//! logs (sessions and tags), the blank-line compaction both logs receive, and
//! the parsing of the session log into `Session` records. Reading the files
//! from disk and writing them back is the caller's concern; this model is
//! what the files must hold.

use vstd::prelude::*;
use crate::session::{db_line_spec, parse_db_line, parse_line_spec, sep_ok, Session};

verus! {

/// A line both logs accept: nonempty and free of line breaks.
pub open spec fn line_ok(l: Seq<char>) -> bool {
    l.len() > 0 && forall|i: int| 0 <= i < l.len() ==> l[i] != '\n'
}

/// Blank lines removed; everything else kept in order.
pub open spec fn compact_spec(ls: Seq<Seq<char>>) -> Seq<Seq<char>>
    decreases ls.len(),
{
    if ls.len() == 0 {
        Seq::empty()
    } else if ls[0].len() == 0 {
        compact_spec(ls.drop_first())
    } else {
        seq![ls[0]] + compact_spec(ls.drop_first())
    }
}

/// Compacting a log that has no blank lines is a no-op.
pub proof fn lemma_compact_no_blanks_noop(ls: Seq<Seq<char>>)
    requires
        forall|k: int| 0 <= k < ls.len() ==> #[trigger] ls[k].len() > 0,
    ensures
        compact_spec(ls) == ls,
    decreases ls.len(),
{
    if ls.len() == 0 {
        assert(compact_spec(ls) =~~= ls);
    } else {
        assert(forall|k: int|
            0 <= k < ls.drop_first().len() ==> #[trigger] ls.drop_first()[k].len() > 0);
        lemma_compact_no_blanks_noop(ls.drop_first());
        assert(compact_spec(ls) =~~= ls);
    }
}

/// A session's canonical line is a valid log line: nonempty, no line break.
pub proof fn lemma_db_line_ok(s: Session, sep: char)
    requires
        s.wf(sep),
        sep != '\n',
    ensures
        line_ok(db_line_spec(s, sep)),
{
    crate::timestamp::lemma_ts_chars_plain(s.start);
    crate::timestamp::lemma_ts_chars_plain(s.end->Some_0);
    let line = db_line_spec(s, sep);
    assert forall|i: int| 0 <= i < line.len() implies line[i] != '\n' by {
        let d = crate::timestamp::date_chars_spec(s.start);
        let t1 = crate::timestamp::time_chars_spec(s.start);
        let t2 = crate::timestamp::time_chars_spec(s.end->Some_0);
        let p1 = d + seq![sep];
        let p2 = p1 + s.description@;
        let p3 = p2 + seq![sep];
        let p4 = p3 + s.tag@;
        let p5 = p4 + seq![sep];
        let p6 = p5 + t1;
        let p7 = p6 + seq![sep];
        let p8 = p7 + t2;
        assert(line =~= p8 + seq![sep]);
    }
}

/// Every compacted line of a loaded log is a valid log line.
pub open spec fn compacted_lines_ok(ls: Seq<Seq<char>>) -> bool {
    forall|k: int| 0 <= k < compact_spec(ls).len() ==> line_ok(#[trigger] compact_spec(ls)[k])
}

/// The in-memory image of the two log files, one entry per line. Both logs
/// are kept compacted: no line is blank, none holds a line break.
pub struct DatabaseHandler {
    session_records: Vec<String>,
    tag_records: Vec<String>,
}

/// Blank lines stripped from a log's lines, as both logs are repaired after
/// every append.
pub fn remove_empty_lines(lines: &Vec<String>) -> (r: Vec<String>)
    ensures
        r.deep_view() == compact_spec(lines.deep_view()),
        forall|k: int| 0 <= k < r@.len() ==> (#[trigger] r@[k])@.len() > 0,
{
    let n = lines.len();
    let mut r: Vec<String> = Vec::new();
    let mut i: usize = 0;
    proof {
        assert(lines.deep_view().skip(0) =~~= lines.deep_view());
        assert(r.deep_view() + compact_spec(lines.deep_view().skip(0)) =~~= compact_spec(
            lines.deep_view(),
        ));
    }
    while i < n
        invariant
            n == lines@.len(),
            i <= n,
            lines.deep_view().len() == n,
            compact_spec(lines.deep_view()) == r.deep_view() + compact_spec(
                lines.deep_view().skip(i as int),
            ),
            forall|k: int| 0 <= k < r@.len() ==> (#[trigger] r@[k])@.len() > 0,
        decreases n - i,
    {
        let ghost rest = lines.deep_view().skip(i as int);
        proof {
            assert(rest.len() > 0 && rest[0] == lines.deep_view()[i as int]);
            assert(lines.deep_view()[i as int] == lines@[i as int]@);
            assert(rest.drop_first() =~~= lines.deep_view().skip(i + 1));
        }
        if !lines[i].as_str().is_empty() {
            let ghost prev = r.deep_view();
            r.push(lines[i].clone());
            proof {
                assert(r.deep_view() =~~= prev + seq![lines@[i as int]@]);
                assert(compact_spec(rest) == seq![rest[0]] + compact_spec(rest.drop_first()));
                assert(prev + compact_spec(rest) =~~= r.deep_view() + compact_spec(
                    lines.deep_view().skip(i + 1),
                ));
            }
        } else {
            proof {
                assert(compact_spec(rest) == compact_spec(rest.drop_first()));
            }
        }
        i = i + 1;
    }
    proof {
        assert(lines.deep_view().skip(n as int) =~~= Seq::<Seq<char>>::empty());
        assert(r.deep_view() + compact_spec(lines.deep_view().skip(n as int)) =~~= r.deep_view());
    }
    r
}

fn line_is_ok(line: &String) -> (r: bool)
    ensures
        r == line_ok(line@),
{
    if line.as_str().is_empty() {
        return false;
    }
    let cs = crate::text::str_chars(line.as_str());
    let mut i: usize = 0;
    let n = cs.len();
    while i < n
        invariant
            n == cs@.len(),
            cs@ == line@,
            i <= n,
            forall|j: int| 0 <= j < i ==> line@[j] != '\n',
        decreases n - i,
    {
        if cs[i] == '\n' {
            return false;
        }
        i = i + 1;
    }
    true
}

impl DatabaseHandler {
    /// The current session-log lines.
    pub closed spec fn sessions_view(&self) -> Seq<Seq<char>> {
        self.session_records.deep_view()
    }

    /// The current tag-log lines.
    pub closed spec fn tags_view(&self) -> Seq<Seq<char>> {
        self.tag_records.deep_view()
    }

    /// Every line of both logs is nonempty and single-line.
    pub open spec fn wf(&self) -> bool {
        &&& forall|k: int| 0 <= k < self.sessions_view().len() ==> line_ok(
            #[trigger] self.sessions_view()[k],
        )
        &&& forall|k: int| 0 <= k < self.tags_view().len() ==> line_ok(
            #[trigger] self.tags_view()[k],
        )
    }

    /// A handler over the lines read from the two log files. Blank lines are
    /// stripped, as every load of the original files does; a line break
    /// inside a line cannot come from a line-based read and marks the input
    /// as corrupt, refusing construction.
    pub fn new(session_lines: Vec<String>, tag_lines: Vec<String>) -> (r: Option<DatabaseHandler>)
        ensures
            r is Some <==> (forall|k: int|
                0 <= k < compact_spec(session_lines.deep_view()).len() ==> line_ok(
                    #[trigger] compact_spec(session_lines.deep_view())[k],
                )) && (forall|k: int|
                0 <= k < compact_spec(tag_lines.deep_view()).len() ==> line_ok(
                    #[trigger] compact_spec(tag_lines.deep_view())[k],
                )),
            r matches Some(h) ==> h.wf() && h.sessions_view() == compact_spec(
                session_lines.deep_view(),
            ) && h.tags_view() == compact_spec(tag_lines.deep_view()),
    {
        let sessions = remove_empty_lines(&session_lines);
        let tags = remove_empty_lines(&tag_lines);
        let mut i: usize = 0;
        let n = sessions.len();
        while i < n
            invariant
                n == sessions@.len(),
                i <= n,
                sessions.deep_view() == compact_spec(session_lines.deep_view()),
                forall|k: int| 0 <= k < i ==> line_ok(#[trigger] sessions.deep_view()[k]),
                forall|k: int| 0 <= k < sessions@.len() ==> (#[trigger] sessions@[k])@.len() > 0,
            decreases n - i,
        {
            proof {
                assert(sessions.deep_view()[i as int] == sessions@[i as int]@);
            }
            if !line_is_ok(&sessions[i]) {
                proof {
                    assert(!line_ok(compact_spec(session_lines.deep_view())[i as int]));
                }
                return None;
            }
            i = i + 1;
        }
        let mut j: usize = 0;
        let m = tags.len();
        while j < m
            invariant
                m == tags@.len(),
                j <= m,
                tags.deep_view() == compact_spec(tag_lines.deep_view()),
                compacted_lines_ok(session_lines.deep_view()),
                forall|k: int| 0 <= k < j ==> line_ok(#[trigger] tags.deep_view()[k]),
                forall|k: int| 0 <= k < tags@.len() ==> (#[trigger] tags@[k])@.len() > 0,
            decreases m - j,
        {
            proof {
                assert(tags.deep_view()[j as int] == tags@[j as int]@);
            }
            if !line_is_ok(&tags[j]) {
                proof {
                    assert(!line_ok(compact_spec(tag_lines.deep_view())[j as int]));
                }
                return None;
            }
            j = j + 1;
        }
        Some(DatabaseHandler { session_records: sessions, tag_records: tags })
    }

    /// Append one session line to the log. The log stays compact: the line
    /// is required nonempty, as the blank-line repair after every append
    /// guarantees of the original files.
    pub fn export_session(&mut self, session_string: &String)
        requires
            old(self).wf(),
            line_ok(session_string@),
        ensures
            final(self).wf(),
            final(self).sessions_view() == old(self).sessions_view() + seq![session_string@],
            final(self).tags_view() == old(self).tags_view(),
    {
        let ghost prev = self.sessions_view();
        self.session_records.push(session_string.clone());
        proof {
            assert(self.sessions_view() =~~= prev + seq![session_string@]);
            assert forall|k: int| 0 <= k < self.sessions_view().len() implies line_ok(
                #[trigger] self.sessions_view()[k],
            ) by {
                if k < prev.len() {
                    assert(self.sessions_view()[k] == prev[k]);
                } else {
                    assert(self.sessions_view()[k] == session_string@);
                }
            }
            assert forall|k: int| 0 <= k < self.tags_view().len() implies line_ok(
                #[trigger] self.tags_view()[k],
            ) by {
                assert(self.tags_view()[k] == old(self).tags_view()[k]);
            }
            assert(self.wf());
        }
    }

    /// Append one tag line to the log; same compactness as the session log.
    pub fn export_tag(&mut self, tag: &String)
        requires
            old(self).wf(),
            line_ok(tag@),
        ensures
            final(self).wf(),
            final(self).tags_view() == old(self).tags_view() + seq![tag@],
            final(self).sessions_view() == old(self).sessions_view(),
    {
        let ghost prev = self.tags_view();
        self.tag_records.push(tag.clone());
        proof {
            assert(self.tags_view() =~~= prev + seq![tag@]);
            assert forall|k: int| 0 <= k < self.tags_view().len() implies line_ok(
                #[trigger] self.tags_view()[k],
            ) by {
                if k < prev.len() {
                    assert(self.tags_view()[k] == prev[k]);
                } else {
                    assert(self.tags_view()[k] == tag@);
                }
            }
            assert forall|k: int| 0 <= k < self.sessions_view().len() implies line_ok(
                #[trigger] self.sessions_view()[k],
            ) by {
                assert(self.sessions_view()[k] == old(self).sessions_view()[k]);
            }
            assert(self.wf());
        }
    }

    /// Rewrite the whole session log from the given list: one line per ended
    /// session, in order. Running sessions are never written; at most the
    /// last session may be running.
    pub fn export_all_sessions(&mut self, sessions: &Vec<Session>, value_separator: char)
        requires
            old(self).wf(),
            sep_ok(value_separator),
            forall|i: int| 0 <= i < sessions@.len() ==> (#[trigger] sessions@[i]).wf(
                value_separator,
            ),
            forall|i: int|
                0 <= i < sessions@.len() - 1 ==> !(#[trigger] sessions@[i]).running(),
        ensures
            final(self).wf(),
            final(self).tags_view() == old(self).tags_view(),
            final(self).sessions_view().len() == (if sessions@.len() > 0 && sessions@[
                sessions@.len() - 1
            ].running() {
                sessions@.len() - 1
            } else {
                sessions@.len() as int
            }),
            forall|i: int| 0 <= i < final(self).sessions_view().len()
                ==> final(self).sessions_view()[i] == crate::session::db_line_spec(
                #[trigger] sessions@[i],
                value_separator,
            ),
    {
        let mut lines: Vec<String> = Vec::new();
        let n = sessions.len();
        let mut i: usize = 0;
        while i < n
            invariant
                n == sessions@.len(),
                i <= n,
                crate::session::sep_ok(value_separator),
                forall|k: int| 0 <= k < sessions@.len() ==> (#[trigger] sessions@[k]).wf(
                    value_separator,
                ),
                forall|k: int|
                    0 <= k < sessions@.len() - 1 ==> !(#[trigger] sessions@[k]).running(),
                lines.deep_view().len() == (if i > 0 && sessions@[i - 1].running() {
                    i - 1
                } else {
                    i as int
                }),
                forall|k: int| 0 <= k < lines.deep_view().len()
                    ==> lines.deep_view()[k] == crate::session::db_line_spec(
                    #[trigger] sessions@[k],
                    value_separator,
                ),
                forall|k: int| 0 <= k < lines@.len() ==> line_ok(
                    (#[trigger] lines@[k])@,
                ),
            decreases n - i,
        {
            if !sessions[i].is_running() {
                let line = sessions[i].construct_db_string(value_separator);
                proof {
                    lemma_db_line_ok(sessions@[i as int], value_separator);
                }
                let ghost prev = lines.deep_view();
                lines.push(line);
                proof {
                    assert(lines.deep_view() =~~= prev + seq![crate::session::db_line_spec(
                        sessions@[i as int],
                        value_separator,
                    )]);
                }
            }
            i = i + 1;
        }
        self.session_records = lines;
        proof {
            assert forall|k: int| 0 <= k < self.sessions_view().len() implies line_ok(
                #[trigger] self.sessions_view()[k],
            ) by {
                assert(self.sessions_view()[k] == lines.deep_view()[k]);
                assert(lines.deep_view()[k] == lines@[k]@);
            }
            assert forall|k: int| 0 <= k < self.tags_view().len() implies line_ok(
                #[trigger] self.tags_view()[k],
            ) by {
                assert(self.tags_view()[k] == old(self).tags_view()[k]);
            }
            assert(self.wf());
        }
    }

    /// The parsed sessions of the session log, or `None` when any line is
    /// corrupt: the tracker refuses to run on partial data. An empty log
    /// yields an empty list.
    pub fn import_sessions(&self, value_separator: char) -> (r: Option<Vec<Session>>)
        requires
            self.wf(),
        ensures
            r is Some <==> forall|i: int| 0 <= i < self.sessions_view().len()
                ==> parse_line_spec(#[trigger] self.sessions_view()[i], value_separator) is Some,
            r matches Some(v) ==> {
                &&& v@.len() == self.sessions_view().len()
                &&& forall|i: int| 0 <= i < v@.len() ==> parse_line_spec(
                    self.sessions_view()[i],
                    value_separator,
                ) == Some((#[trigger] v@[i]).stored_view())
                &&& forall|i: int| 0 <= i < v@.len() ==> (#[trigger] v@[i]).end == Some(
                    v@[i].stored_view().end,
                )
                &&& forall|i: int| 0 <= i < v@.len() ==> (#[trigger] v@[i]).wf(value_separator)
                    && !v@[i].running()
            },
    {
        self.parse_sessions(&self.session_records, value_separator)
    }

    /// The sessions the given log lines denote, or `None` when any line is
    /// corrupt. Each line must be nonempty and single-line, as lines read
    /// from a log file are.
    pub fn parse_sessions(&self, sessions: &Vec<String>, value_separator: char) -> (r: Option<
        Vec<Session>,
    >)
        requires
            forall|i: int| 0 <= i < sessions.deep_view().len() ==> line_ok(
                #[trigger] sessions.deep_view()[i],
            ),
        ensures
            r is Some <==> forall|i: int| 0 <= i < sessions.deep_view().len()
                ==> parse_line_spec(
                #[trigger] sessions.deep_view()[i],
                value_separator,
            ) is Some,
            r matches Some(v) ==> {
                &&& v@.len() == sessions.deep_view().len()
                &&& forall|i: int| 0 <= i < v@.len() ==> parse_line_spec(
                    sessions.deep_view()[i],
                    value_separator,
                ) == Some((#[trigger] v@[i]).stored_view())
                &&& forall|i: int| 0 <= i < v@.len() ==> (#[trigger] v@[i]).end == Some(
                    v@[i].stored_view().end,
                )
                &&& forall|i: int| 0 <= i < v@.len() ==> (#[trigger] v@[i]).wf(value_separator)
                    && !v@[i].running()
            },
    {
        let n = sessions.len();
        let mut parsed: Vec<Session> = Vec::new();
        let mut i: usize = 0;
        while i < n
            invariant
                n == sessions@.len(),
                sessions.deep_view().len() == n,
                i <= n,
                forall|k: int| 0 <= k < sessions.deep_view().len() ==> line_ok(
                    #[trigger] sessions.deep_view()[k],
                ),
                parsed@.len() == i,
                forall|k: int| 0 <= k < i ==> parse_line_spec(
                    sessions.deep_view()[k],
                    value_separator,
                ) == Some((#[trigger] parsed@[k]).stored_view()),
                forall|k: int| 0 <= k < i ==> (#[trigger] parsed@[k]).end == Some(
                    parsed@[k].stored_view().end,
                ),
                forall|k: int| 0 <= k < i ==> (#[trigger] parsed@[k]).wf(value_separator)
                    && !parsed@[k].running(),
            decreases n - i,
        {
            proof {
                assert(sessions.deep_view()[i as int] == sessions@[i as int]@);
            }
            match parse_db_line(&sessions[i], value_separator) {
                Some(s) => {
                    parsed.push(s);
                },
                None => {
                    proof {
                        assert(parse_line_spec(
                            sessions.deep_view()[i as int],
                            value_separator,
                        ) is None);
                    }
                    return None;
                },
            }
            i = i + 1;
        }
        proof {
            assert forall|k: int| 0 <= k < sessions.deep_view().len() implies parse_line_spec(
                #[trigger] sessions.deep_view()[k],
                value_separator,
            ) is Some by {
                assert(parse_line_spec(sessions.deep_view()[k], value_separator) == Some(
                    parsed@[k].stored_view(),
                ));
            }
        }
        Some(parsed)
    }

    /// The tag log, one tag per line, in order.
    pub fn import_tags(&self) -> (r: Option<Vec<String>>)
        ensures
            r matches Some(v) && v.deep_view() == self.tags_view(),
    {
        let n = self.tag_records.len();
        let mut tags: Vec<String> = Vec::new();
        let mut i: usize = 0;
        while i < n
            invariant
                n == self.tag_records@.len(),
                i <= n,
                tags.deep_view() == self.tags_view().take(i as int),
            decreases n - i,
        {
            let ghost prev = tags.deep_view();
            tags.push(self.tag_records[i].clone());
            i = i + 1;
            proof {
                assert(tags@.len() == prev.len() + 1);
                assert(tags.deep_view().len() == i as int);
                assert(self.tags_view().take(i as int).len() == i as int);
                assert forall|k: int| 0 <= k < tags.deep_view().len() implies tags.deep_view()[k]
                    == self.tags_view().take(i as int)[k] by {
                    if k < prev.len() {
                        assert(tags.deep_view()[k] == prev[k]);
                    } else {
                        assert(tags.deep_view()[k] == tags@[k]@);
                    }
                }
                assert(tags.deep_view() =~~= self.tags_view().take(i as int));
            }
        }
        proof {
            assert(tags.deep_view() =~~= self.tags_view());
        }
        Some(tags)
    }

    /// Remove the session-log line at the given position; the in-memory list
    /// and the log are kept in lockstep by the caller.
    pub fn delete_session(&mut self, session_index: usize)
        requires
            old(self).wf(),
            session_index < old(self).sessions_view().len(),
        ensures
            final(self).wf(),
            final(self).tags_view() == old(self).tags_view(),
            final(self).sessions_view() == old(self).sessions_view().remove(session_index as int),
    {
        self.session_records.remove(session_index);
        proof {
            assert(self.sessions_view() =~~= old(self).sessions_view().remove(
                session_index as int,
            ));
            assert forall|k: int| 0 <= k < self.sessions_view().len() implies line_ok(
                #[trigger] self.sessions_view()[k],
            ) by {
                if k < session_index {
                    assert(self.sessions_view()[k] == old(self).sessions_view()[k]);
                } else {
                    assert(self.sessions_view()[k] == old(self).sessions_view()[k + 1]);
                }
            }
            assert forall|k: int| 0 <= k < self.tags_view().len() implies line_ok(
                #[trigger] self.tags_view()[k],
            ) by {
                assert(self.tags_view()[k] == old(self).tags_view()[k]);
            }
            assert(self.wf());
        }
    }

    /// The session-log lines as a file image, for the caller that persists
    /// them.
    pub fn session_lines(&self) -> (r: &Vec<String>)
        ensures
            r.deep_view() == self.sessions_view(),
    {
        &self.session_records
    }

    /// The tag-log lines as a file image, for the caller that persists them.
    pub fn tag_lines(&self) -> (r: &Vec<String>)
        ensures
            r.deep_view() == self.tags_view(),
    {
        &self.tag_records
    }
}

} // verus!
