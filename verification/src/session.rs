//! A recorded work session, its canonical persisted line format
//! `DD-MM-YYYY<sep>description<sep>tag<sep>HH:MM:SS<sep>HH:MM:SS<sep>`, and
//! the field edits the session editor can stage on a copy.

use vstd::prelude::*;
use crate::app_state::{clean_text, SessionField};
use crate::text::{
    chars_to_string, lemma_split_len, lemma_split_pieces_clean, lemma_split_pieces_subset,
    lemma_split_concat, lemma_split_no_sep, split_chars, split_on, str_chars, trim_chars,
    trim_spec,
};
use crate::timestamp::{
    date_chars_spec, diff_seconds, display_date_chars_spec, duration_chars, duration_chars_spec,
    is_digit_char, max_linear, min_linear, parse_timestamp, parse_ts_spec, shift_seconds,
    time_chars_spec, Timestamp, lemma_ts_roundtrip, lemma_ts_chars_plain,
};

verus! {

/// One tracked work session. A session without an `end` is running.
#[derive(Debug)]
pub struct Session {
    pub description: String,
    pub tag: String,
    pub start: Timestamp,
    pub end: Option<Timestamp>,
}

/// What one persisted line stores of a session: the end keeps only its time
/// of day, so it is recorded on the start's calendar date.
pub ghost struct StoredSession {
    pub description: Seq<char>,
    pub tag: Seq<char>,
    pub start: Timestamp,
    pub end: Timestamp,
}

/// A separator the line format can use: it may not collide with the
/// characters of the date and time fields or with the line breaks of the log.
pub open spec fn sep_ok(sep: char) -> bool {
    !is_digit_char(sep) && sep != '-' && sep != ':' && sep != '\n'
}

impl Session {
    /// The session is running: it has not been ended yet.
    pub open spec fn running(&self) -> bool {
        self.end is None
    }

    /// Both timestamps are well formed.
    pub open spec fn times_wf(&self) -> bool {
        &&& self.start.wf()
        &&& match self.end {
            Some(e) => e.wf(),
            None => true,
        }
    }

    /// Description and tag fit in one line field; timestamps are well formed.
    pub open spec fn wf(&self, sep: char) -> bool {
        &&& clean_text(self.description@, sep)
        &&& clean_text(self.tag@, sep)
        &&& self.times_wf()
    }

    /// The end instant carried over to the start's calendar date: exactly
    /// what one persisted line can represent of an ended session.
    pub open spec fn stored_view(&self) -> StoredSession {
        StoredSession {
            description: self.description@,
            tag: self.tag@,
            start: self.start,
            end: Timestamp {
                year: self.start.year,
                month: self.start.month,
                day: self.start.day,
                hour: self.end->Some_0.hour,
                minute: self.end->Some_0.minute,
                second: self.end->Some_0.second,
            },
        }
    }

    pub fn from(description: &str, tag: &str, start: Timestamp, end: Option<Timestamp>) -> (r:
        Session)
        ensures
            r.description@ == description@,
            r.tag@ == tag@,
            r.start == start,
            r.end == end,
    {
        Session { description: description.to_owned(), tag: tag.to_owned(), start, end }
    }

    pub fn is_running(&self) -> (r: bool)
        ensures
            r == self.running(),
    {
        match self.end {
            Some(_) => false,
            None => true,
        }
    }

    /// The date shown in the session list: day, month name, two-digit year.
    pub fn get_date_string(&self) -> (r: String)
        requires
            self.start.wf(),
        ensures
            r@ == display_date_chars_spec(self.start),
    {
        let v = self.start.display_date_chars();
        chars_to_string(&v)
    }

    /// The start's time of day as `HH:MM:SS`.
    pub fn get_start_time_string(&self) -> (r: String)
        requires
            self.start.wf(),
        ensures
            r@ == time_chars_spec(self.start),
    {
        let v = self.start.time_chars();
        chars_to_string(&v)
    }

    /// The end's time of day as `HH:MM:SS`, absent while running.
    pub fn get_end_time_string(&self) -> (r: Option<String>)
        requires
            self.times_wf(),
        ensures
            match self.end {
                Some(e) => r matches Some(s) && s@ == time_chars_spec(e),
                None => r is None,
            },
    {
        match &self.end {
            Some(e) => {
                let v = e.time_chars();
                Some(chars_to_string(&v))
            },
            None => None,
        }
    }

    /// Elapsed time from start to end as `HH:MM:SS`, absent while running.
    pub fn get_duration_string(&self) -> (r: Option<String>)
        requires
            self.times_wf(),
        ensures
            match self.end {
                Some(e) => r matches Some(s) && s@ == duration_chars_spec(
                    e.linear() - self.start.linear(),
                ),
                None => r is None,
            },
    {
        match &self.end {
            Some(e) => {
                let d = diff_seconds(e, &self.start);
                let v = duration_chars(d);
                Some(chars_to_string(&v))
            },
            None => None,
        }
    }
}

/// The canonical persisted line of an ended session: date, description, tag,
/// start time, end time, each field followed by the separator.
pub open spec fn db_line_spec(s: Session, sep: char) -> Seq<char> {
    date_chars_spec(s.start) + seq![sep] + s.description@ + seq![sep] + s.tag@ + seq![sep]
        + time_chars_spec(s.start) + seq![sep] + time_chars_spec(s.end->Some_0) + seq![sep]
}

/// What a persisted line denotes: `None` when it is not a well-formed record.
/// The line needs at least five fields; any beyond the fifth (such as a
/// cached duration) are ignored. Both timestamps share the date field.
pub open spec fn parse_line_spec(line: Seq<char>, sep: char) -> Option<StoredSession> {
    let fs = split_on(line, sep);
    if fs.len() >= 5 {
        match (parse_ts_spec(fs[0], fs[3]), parse_ts_spec(fs[0], fs[4])) {
            (Some(st), Some(en)) => Some(
                StoredSession { description: fs[1], tag: fs[2], start: st, end: en },
            ),
            _ => None,
        }
    } else {
        None
    }
}

impl Session {
    /// This session's canonical persisted line. Only an ended session has
    /// one: a running session is never written to the log.
    pub fn construct_db_string(&self, separator: char) -> (r: String)
        requires
            self.end is Some,
            self.start.wf(),
            self.end->Some_0.wf(),
        ensures
            r@ == db_line_spec(*self, separator),
    {
        let mut v: Vec<char> = self.start.date_chars();
        v.push(separator);
        let desc = str_chars(self.description.as_str());
        let mut k: usize = 0;
        let ghost mid0 = v@;
        while k < desc.len()
            invariant
                k <= desc@.len(),
                desc@ == self.description@,
                v@ == mid0 + desc@.subrange(0, k as int),
            decreases desc@.len() - k,
        {
            v.push(desc[k]);
            k = k + 1;
            assert(v@ =~= mid0 + desc@.subrange(0, k as int));
        }
        assert(v@ =~= mid0 + self.description@);
        v.push(separator);
        let tagc = str_chars(self.tag.as_str());
        let mut k2: usize = 0;
        let ghost mid1 = v@;
        while k2 < tagc.len()
            invariant
                k2 <= tagc@.len(),
                tagc@ == self.tag@,
                v@ == mid1 + tagc@.subrange(0, k2 as int),
            decreases tagc@.len() - k2,
        {
            v.push(tagc[k2]);
            k2 = k2 + 1;
            assert(v@ =~= mid1 + tagc@.subrange(0, k2 as int));
        }
        assert(v@ =~= mid1 + self.tag@);
        v.push(separator);
        let mut st = self.start.time_chars();
        v.append(&mut st);
        v.push(separator);
        let end = match &self.end {
            Some(e) => *e,
            None => self.start,
        };
        let mut en = end.time_chars();
        v.append(&mut en);
        v.push(separator);
        assert(v@ =~= db_line_spec(*self, separator));
        chars_to_string(&v)
    }
}

/// The session a persisted line denotes, or `None` when the line is corrupt.
/// The returned session carries the line's date on both timestamps and is
/// always ended.
pub fn parse_db_line(line: &String, sep: char) -> (r: Option<Session>)
    ensures
        r is Some <==> parse_line_spec(line@, sep) is Some,
        r matches Some(s) ==> {
            let p = parse_line_spec(line@, sep)->Some_0;
            &&& s.description@ == p.description
            &&& s.tag@ == p.tag
            &&& s.start == p.start
            &&& s.end == Some(p.end)
            &&& s.times_wf()
            &&& s.stored_view() == p
            &&& forall|i: int| 0 <= i < s.description@.len() ==> s.description@[i] != sep
            &&& forall|i: int| 0 <= i < s.tag@.len() ==> s.tag@[i] != sep
            &&& (forall|j: int| 0 <= j < line@.len() ==> line@[j] != '\n') ==> clean_text(
                s.description@,
                sep,
            ) && clean_text(s.tag@, sep)
        },
{
    let cs = str_chars(line.as_str());
    let pieces = split_chars(&cs, sep);
    proof {
        lemma_split_pieces_clean(line@, sep);
    }
    if pieces.len() < 5 {
        return None;
    }
    let start = parse_timestamp(&pieces[0], &pieces[3]);
    let end = parse_timestamp(&pieces[0], &pieces[4]);
    match (start, end) {
        (Some(st), Some(en)) => {
            let desc = chars_to_string(&pieces[1]);
            let tag = chars_to_string(&pieces[2]);
            proof {
                let fs = split_on(line@, sep);
                assert(pieces@[1]@ == fs[1] && pieces@[2]@ == fs[2]);
                lemma_split_pieces_subset(line@, sep);
                if forall|j: int| 0 <= j < line@.len() ==> line@[j] != '\n' {
                    assert forall|i: int| 0 <= i < fs[1].len() implies fs[1][i] != '\n' by {
                        assert(exists|j: int| 0 <= j < line@.len() && line@[j] == fs[1][i]);
                        let j = choose|j: int| 0 <= j < line@.len() && line@[j] == fs[1][i];
                    }
                    assert forall|i: int| 0 <= i < fs[2].len() implies fs[2][i] != '\n' by {
                        assert(exists|j: int| 0 <= j < line@.len() && line@[j] == fs[2][i]);
                        let j = choose|j: int| 0 <= j < line@.len() && line@[j] == fs[2][i];
                    }
                }
            }
            let s = Session { description: desc, tag, start: st, end: Some(en) };
            proof {
                assert(s.stored_view() == parse_line_spec(line@, sep)->Some_0);
            }
            Some(s)
        },
        _ => None,
    }
}

/// Parsing a session's canonical line gives back everything the line format
/// can carry: description, tag, start, and the end mapped onto the start's
/// calendar date. With start and end on the same date, this is the session
/// itself.
pub proof fn lemma_line_roundtrip(s: Session, sep: char)
    requires
        s.wf(sep),
        s.end is Some,
        sep_ok(sep),
    ensures
        parse_line_spec(db_line_spec(s, sep), sep) == Some(s.stored_view()),
{
    let d = date_chars_spec(s.start);
    let t1 = time_chars_spec(s.start);
    let t2 = time_chars_spec(s.end->Some_0);
    let line = db_line_spec(s, sep);
    lemma_ts_chars_plain(s.start);
    lemma_ts_chars_plain(s.end->Some_0);
    let r4 = t2 + seq![sep];
    let r3 = t1 + seq![sep] + r4;
    let r2 = s.tag@ + seq![sep] + r3;
    let r1 = s.description@ + seq![sep] + r2;
    assert(line =~= d + seq![sep] + r1);
    lemma_split_concat(d, r1, sep);
    assert(r1 =~= s.description@ + seq![sep] + r2);
    lemma_split_concat(s.description@, r2, sep);
    lemma_split_concat(s.tag@, r3, sep);
    assert(r3 =~= t1 + seq![sep] + r4);
    lemma_split_concat(t1, r4, sep);
    assert(r4 =~= t2 + seq![sep] + Seq::<char>::empty());
    lemma_split_concat(t2, Seq::<char>::empty(), sep);
    let fs = split_on(line, sep);
    assert(fs =~~= seq![d] + (seq![s.description@] + (seq![s.tag@] + (seq![t1] + (seq![t2]
        + split_on(Seq::<char>::empty(), sep))))));
    assert(fs.len() == 6);
    assert(fs[0] == d && fs[1] == s.description@ && fs[2] == s.tag@ && fs[3] == t1 && fs[4] == t2);
    lemma_ts_roundtrip(s.start, s.start);
    lemma_ts_roundtrip(s.start, s.end->Some_0);
    assert(parse_ts_spec(d, t1) == Some(s.start));
    assert(parse_line_spec(line, sep) == Some(s.stored_view()));
}

/// How `set_field` relates the session before and after one staged edit.
pub open spec fn set_field_rel(pre: Session, field: SessionField, post: Session) -> bool {
    match field {
        SessionField::Date(nd) => match pre.end {
            None => post == (Session { start: nd, end: None, ..pre }),
            Some(e) => {
                let delta = nd.linear() - pre.start.linear();
                if min_linear() <= e.linear() + delta <= max_linear() {
                    post.end matches Some(e2) && post == (Session {
                        start: nd,
                        end: Some(e2),
                        ..pre
                    }) && e2.wf() && e2.linear() == e.linear() + delta
                } else {
                    post == pre
                }
            },
        },
        SessionField::Description(nv) => if trim_spec(nv@).len() > 0 {
            post.description@ == trim_spec(nv@) && post.tag == pre.tag && post.start == pre.start
                && post.end == pre.end
        } else {
            post == pre
        },
        SessionField::Tag(nv) => if trim_spec(nv@).len() > 0 {
            post.tag@ == trim_spec(nv@) && post.description == pre.description && post.start
                == pre.start && post.end == pre.end
        } else {
            post == pre
        },
        SessionField::Start(nv) => post == (Session { start: nv, ..pre }),
        SessionField::End(nv) => post == (Session { end: nv, ..pre }),
        SessionField::Unset => post == pre,
    }
}

/// Field-wise equality of two sessions, as the editor's pending-change check
/// compares them.
pub open spec fn sess_eq_spec(a: Session, b: Session) -> bool {
    a.description@ == b.description@ && a.tag@ == b.tag@ && a.start == b.start && a.end == b.end
}

/// A trailing extra field — such as the cached duration one schema variant
/// appends — does not change what a canonical line parses to.
pub proof fn lemma_roundtrip_ignores_suffix(s: Session, sep: char, extra: Seq<char>)
    requires
        s.wf(sep),
        s.end is Some,
        sep_ok(sep),
        forall|i: int| 0 <= i < extra.len() ==> extra[i] != sep,
    ensures
        parse_line_spec(db_line_spec(s, sep) + extra, sep) == Some(s.stored_view()),
{
    let d = date_chars_spec(s.start);
    let t1 = time_chars_spec(s.start);
    let t2 = time_chars_spec(s.end->Some_0);
    let line = db_line_spec(s, sep) + extra;
    lemma_ts_chars_plain(s.start);
    lemma_ts_chars_plain(s.end->Some_0);
    let r4 = t2 + seq![sep] + extra;
    let r3 = t1 + seq![sep] + r4;
    let r2 = s.tag@ + seq![sep] + r3;
    let r1 = s.description@ + seq![sep] + r2;
    assert(line =~= d + seq![sep] + r1);
    lemma_split_concat(d, r1, sep);
    assert(r1 =~= s.description@ + seq![sep] + r2);
    lemma_split_concat(s.description@, r2, sep);
    lemma_split_concat(s.tag@, r3, sep);
    assert(r3 =~= t1 + seq![sep] + r4);
    lemma_split_concat(t1, r4, sep);
    assert(r4 =~= t2 + seq![sep] + extra);
    lemma_split_concat(t2, extra, sep);
    lemma_split_len(extra, sep);
    let fs = split_on(line, sep);
    assert(fs =~~= seq![d] + (seq![s.description@] + (seq![s.tag@] + (seq![t1] + (seq![t2]
        + split_on(extra, sep))))));
    assert(fs.len() >= 5);
    assert(fs[0] == d && fs[1] == s.description@ && fs[2] == s.tag@ && fs[3] == t1 && fs[4] == t2);
    lemma_ts_roundtrip(s.start, s.start);
    lemma_ts_roundtrip(s.start, s.end->Some_0);
    assert(parse_line_spec(line, sep) == Some(s.stored_view()));
}

impl Clone for Session {
    /// A field-for-field copy.
    fn clone(&self) -> (r: Self)
        ensures
            r == *self,
    {
        let r = Session {
            description: self.description.clone(),
            tag: self.tag.clone(),
            start: self.start,
            end: self.end,
        };
        r
    }
}

impl PartialEq for Session {
    fn eq(&self, other: &Self) -> (r: bool)
    {
        self.description == other.description && self.tag == other.tag && self.start == other.start
            && match (&self.end, &other.end) {
            (Some(a), Some(b)) => a == b,
            (None, None) => true,
            _ => false,
        }
    }
}

impl vstd::std_specs::cmp::PartialEqSpecImpl for Session {
    open spec fn obeys_eq_spec() -> bool {
        true
    }

    open spec fn eq_spec(&self, other: &Session) -> bool {
        self.description@ == other.description@ && self.tag@ == other.tag@ && self.start
            == other.start && self.end == other.end
    }
}

impl Session {
    /// Overwrite one field from the editor's cursor. A `Date` value moves the
    /// whole session: the start becomes the given instant and an end moves by
    /// exactly the same span, so the recorded duration is unchanged; exactly
    /// when the moved end would leave the representable years 1 through 9999
    /// the session stays untouched instead.
    /// Empty (post-trim) description or tag values are rejected; `Start` and
    /// `End` replace their field directly.
    pub fn set_field(&mut self, field: &SessionField)
        requires
            old(self).times_wf(),
            field matches SessionField::Date(nd) ==> nd.wf(),
        ensures
            set_field_rel(*old(self), *field, *final(self)),
    {
        match field {
            SessionField::Date(new_date) => {
                let delta = diff_seconds(new_date, &self.start);
                match &self.end {
                    None => {
                        self.start = *new_date;
                    },
                    Some(e) => {
                        match shift_seconds(e, delta) {
                            Some(e2) => {
                                self.start = *new_date;
                                self.end = Some(e2);
                            },
                            None => {},
                        }
                    },
                }
            },
            SessionField::Description(new_description) => {
                let cs = str_chars(new_description.as_str());
                let trimmed = trim_chars(&cs);
                if trimmed.len() > 0 {
                    self.description = chars_to_string(&trimmed);
                }
            },
            SessionField::Tag(new_tag) => {
                let cs = str_chars(new_tag.as_str());
                let trimmed = trim_chars(&cs);
                if trimmed.len() > 0 {
                    self.tag = chars_to_string(&trimmed);
                }
            },
            SessionField::Start(new_start) => {
                self.start = *new_start;
            },
            SessionField::End(new_end) => {
                self.end = *new_end;
            },
            SessionField::Unset => {},
        }
    }
}

} // verus!
