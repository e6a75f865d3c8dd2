//! Character-level helpers shared by the line codec and the input handling:
//! whitespace trimming, separator splitting, and conversion between `String`
//! and `Vec<char>`.

use vstd::prelude::*;

verus! {

/// Characters treated as whitespace when a text field is trimmed.
pub open spec fn is_space_char(c: char) -> bool {
    c == ' ' || c == '\t' || c == '\r' || c == '\n'
}

/// Leading and trailing whitespace removed.
pub open spec fn trim_spec(s: Seq<char>) -> Seq<char>
    decreases s.len(),
{
    if s.len() == 0 {
        s
    } else if is_space_char(s[0]) {
        trim_spec(s.drop_first())
    } else if is_space_char(s.last()) {
        trim_spec(s.drop_last())
    } else {
        s
    }
}

/// Every character of the trimmed text occurs in the original text.
pub proof fn lemma_trim_chars_subset(s: Seq<char>)
    ensures
        forall|i: int|
            0 <= i < trim_spec(s).len() ==> exists|j: int|
                0 <= j < s.len() && s[j] == #[trigger] trim_spec(s)[i],
    decreases s.len(),
{
    if s.len() == 0 {
    } else if is_space_char(s[0]) {
        lemma_trim_chars_subset(s.drop_first());
        assert forall|i: int| 0 <= i < trim_spec(s).len() implies exists|j: int|
            0 <= j < s.len() && s[j] == #[trigger] trim_spec(s)[i] by {
            assert(trim_spec(s) == trim_spec(s.drop_first()));
            let j0 = choose|j: int|
                0 <= j < s.drop_first().len() && s.drop_first()[j] == trim_spec(s.drop_first())[i];
            assert(s[j0 + 1] == trim_spec(s)[i]);
        }
    } else if is_space_char(s.last()) {
        lemma_trim_chars_subset(s.drop_last());
        assert forall|i: int| 0 <= i < trim_spec(s).len() implies exists|j: int|
            0 <= j < s.len() && s[j] == #[trigger] trim_spec(s)[i] by {
            assert(trim_spec(s) == trim_spec(s.drop_last()));
            let j0 = choose|j: int|
                0 <= j < s.drop_last().len() && s.drop_last()[j] == trim_spec(s.drop_last())[i];
            assert(s[j0] == trim_spec(s)[i]);
        }
    }
}

/// Trimming an already-trimmed text changes nothing.
pub proof fn lemma_trim_idempotent(s: Seq<char>)
    ensures
        trim_spec(trim_spec(s)) == trim_spec(s),
    decreases s.len(),
{
    if s.len() == 0 {
    } else if is_space_char(s[0]) {
        lemma_trim_idempotent(s.drop_first());
    } else if is_space_char(s.last()) {
        lemma_trim_idempotent(s.drop_last());
    }
}

pub fn is_space(c: char) -> (r: bool)
    ensures
        r == is_space_char(c),
{
    c == ' ' || c == '\t' || c == '\r' || c == '\n'
}

/// The characters of `s`, in order.
pub fn str_chars(s: &str) -> (r: Vec<char>)
    ensures
        r@ == s@,
{
    let n = s.unicode_len();
    let mut r: Vec<char> = Vec::new();
    let mut i: usize = 0;
    while i < n
        invariant
            n == s@.len(),
            i <= n,
            r@ == s@.subrange(0, i as int),
        decreases n - i,
    {
        r.push(s.get_char(i));
        i = i + 1;
        assert(r@ =~= s@.subrange(0, i as int));
    }
    assert(r@ =~= s@);
    r
}

/// The given characters as an owned string.
///
/// Relies on `String`'s `FromIterator<char>`: collecting yields a string
/// holding exactly the characters of the iterator, in order.
#[verifier::external_body]
pub(crate) fn chars_to_string(v: &Vec<char>) -> (r: String)
    ensures
        r@ == v@,
{
    v.iter().collect()
}

/// `v` with leading and trailing whitespace removed.
pub fn trim_chars(v: &Vec<char>) -> (r: Vec<char>)
    ensures
        r@ == trim_spec(v@),
{
    let n = v.len();
    proof {
        assert(v@.subrange(0, n as int) =~= v@);
    }
    let mut i: usize = 0;
    while i < n && is_space(v[i])
        invariant
            n == v@.len(),
            i <= n,
            trim_spec(v@) == trim_spec(v@.subrange(i as int, n as int)),
        decreases n - i,
    {
        assert(v@.subrange(i as int, n as int).drop_first() =~= v@.subrange(i + 1, n as int));
        i = i + 1;
    }
    let mut j: usize = n;
    while j > i && is_space(v[j - 1])
        invariant
            n == v@.len(),
            i <= j <= n,
            i < n ==> !is_space_char(v@[i as int]),
            trim_spec(v@) == trim_spec(v@.subrange(i as int, j as int)),
        decreases j,
    {
        assert(v@.subrange(i as int, j as int).drop_last() =~= v@.subrange(i as int, j - 1));
        j = j - 1;
    }
    let mut r: Vec<char> = Vec::new();
    let mut k: usize = i;
    while k < j
        invariant
            i <= k <= j <= n,
            n == v@.len(),
            r@ == v@.subrange(i as int, k as int),
        decreases j - k,
    {
        r.push(v[k]);
        k = k + 1;
        assert(r@ =~= v@.subrange(i as int, k as int));
    }
    assert(r@ =~= v@.subrange(i as int, j as int));
    r
}

/// `s` with leading and trailing whitespace removed.
pub fn trim_string(s: &String) -> (r: String)
    ensures
        r@ == trim_spec(s@),
{
    let cs = str_chars(s.as_str());
    let trimmed = trim_chars(&cs);
    chars_to_string(&trimmed)
}

/// `s` with `c` appended.
pub fn push_char(s: &String, c: char) -> (r: String)
    ensures
        r@ == s@.push(c),
{
    let mut v = str_chars(s.as_str());
    v.push(c);
    let r = chars_to_string(&v);
    assert(r@ =~= s@.push(c));
    r
}

/// `s` without its last character; an empty text stays empty.
pub fn pop_char(s: &String) -> (r: String)
    ensures
        r@ == (if s@.len() > 0 {
            s@.drop_last()
        } else {
            s@
        }),
{
    let mut v = str_chars(s.as_str());
    if v.len() > 0 {
        v.pop();
        assert(v@ =~= s@.drop_last());
    }
    chars_to_string(&v)
}

/// `s` split at every occurrence of `sep`; always at least one piece.
pub open spec fn split_on(s: Seq<char>, sep: char) -> Seq<Seq<char>>
    decreases s.len(),
{
    if s.len() == 0 {
        seq![Seq::<char>::empty()]
    } else if s[0] == sep {
        seq![Seq::<char>::empty()] + split_on(s.drop_first(), sep)
    } else {
        let rest = split_on(s.drop_first(), sep);
        seq![seq![s[0]] + rest[0]] + rest.drop_first()
    }
}

pub proof fn lemma_split_len(s: Seq<char>, sep: char)
    ensures
        split_on(s, sep).len() >= 1,
    decreases s.len(),
{
    if s.len() != 0 {
        lemma_split_len(s.drop_first(), sep);
    }
}

/// A text without the separator splits into the single piece it is.
pub proof fn lemma_split_no_sep(s: Seq<char>, sep: char)
    requires
        forall|i: int| 0 <= i < s.len() ==> s[i] != sep,
    ensures
        split_on(s, sep) == seq![s],
    decreases s.len(),
{
    if s.len() == 0 {
        assert(split_on(s, sep) =~~= seq![s]);
    } else {
        assert(forall|i: int|
            0 <= i < s.drop_first().len() ==> #[trigger] s.drop_first()[i] != sep);
        lemma_split_no_sep(s.drop_first(), sep);
        let rest = split_on(s.drop_first(), sep);
        assert(rest[0] == s.drop_first());
        assert(seq![s[0]] + s.drop_first() =~= s);
        assert(split_on(s, sep) =~~= seq![s]);
    }
}

/// Splitting `a ++ sep ++ b` where `a` is separator-free peels off `a`.
pub proof fn lemma_split_concat(a: Seq<char>, b: Seq<char>, sep: char)
    requires
        forall|i: int| 0 <= i < a.len() ==> a[i] != sep,
    ensures
        split_on(a + seq![sep] + b, sep) == seq![a] + split_on(b, sep),
    decreases a.len(),
{
    let s = a + seq![sep] + b;
    if a.len() == 0 {
        assert(s.len() >= 1 && s[0] == sep);
        assert(s.drop_first() =~= b);
        assert(split_on(s, sep) =~~= seq![a] + split_on(b, sep));
    } else {
        assert(forall|i: int|
            0 <= i < a.drop_first().len() ==> #[trigger] a.drop_first()[i] != sep);
        lemma_split_concat(a.drop_first(), b, sep);
        assert(s[0] == a[0] && s[0] != sep);
        assert(s.drop_first() =~= a.drop_first() + seq![sep] + b);
        lemma_split_len(b, sep);
        let rest = split_on(s.drop_first(), sep);
        assert(rest == seq![a.drop_first()] + split_on(b, sep));
        assert(rest[0] == a.drop_first());
        assert(seq![s[0]] + rest[0] =~= a);
        assert(rest.drop_first() =~= split_on(b, sep));
        assert(split_on(s, sep) =~~= seq![a] + split_on(b, sep));
    }
}

/// No piece of a split contains the separator.
pub proof fn lemma_split_pieces_clean(s: Seq<char>, sep: char)
    ensures
        forall|k: int, i: int|
            0 <= k < split_on(s, sep).len() && 0 <= i < split_on(s, sep)[k].len()
                ==> #[trigger] split_on(s, sep)[k][i] != sep,
    decreases s.len(),
{
    if s.len() == 0 {
    } else if s[0] == sep {
        lemma_split_pieces_clean(s.drop_first(), sep);
        let r = split_on(s, sep);
        let rest = split_on(s.drop_first(), sep);
        assert forall|k: int, i: int|
            0 <= k < r.len() && 0 <= i < r[k].len() implies #[trigger] r[k][i] != sep by {
            if k >= 1 {
                assert(r[k] == rest[k - 1]);
            }
        }
    } else {
        lemma_split_pieces_clean(s.drop_first(), sep);
        lemma_split_len(s.drop_first(), sep);
        let r = split_on(s, sep);
        let rest = split_on(s.drop_first(), sep);
        assert forall|k: int, i: int|
            0 <= k < r.len() && 0 <= i < r[k].len() implies #[trigger] r[k][i] != sep by {
            if k == 0 {
                assert(r[0] == seq![s[0]] + rest[0]);
                if i >= 1 {
                    assert(r[0][i] == rest[0][i - 1]);
                }
            } else {
                assert(r[k] == rest[k]);
            }
        }
    }
}

/// Every character of every piece of a split occurs in the original text.
pub proof fn lemma_split_pieces_subset(s: Seq<char>, sep: char)
    ensures
        forall|k: int, i: int|
            0 <= k < split_on(s, sep).len() && 0 <= i < split_on(s, sep)[k].len() ==> exists|j: int|
                0 <= j < s.len() && s[j] == #[trigger] split_on(s, sep)[k][i],
    decreases s.len(),
{
    if s.len() == 0 {
    } else if s[0] == sep {
        lemma_split_pieces_subset(s.drop_first(), sep);
        let r = split_on(s, sep);
        let rest = split_on(s.drop_first(), sep);
        assert forall|k: int, i: int|
            0 <= k < r.len() && 0 <= i < r[k].len() implies exists|j: int|
            0 <= j < s.len() && s[j] == #[trigger] r[k][i] by {
            assert(r[k] == rest[k - 1]);
            let j0 = choose|j: int|
                0 <= j < s.drop_first().len() && s.drop_first()[j] == rest[k - 1][i];
            assert(s[j0 + 1] == r[k][i]);
        }
    } else {
        lemma_split_pieces_subset(s.drop_first(), sep);
        lemma_split_len(s.drop_first(), sep);
        let r = split_on(s, sep);
        let rest = split_on(s.drop_first(), sep);
        assert forall|k: int, i: int|
            0 <= k < r.len() && 0 <= i < r[k].len() implies exists|j: int|
            0 <= j < s.len() && s[j] == #[trigger] r[k][i] by {
            if k == 0 {
                assert(r[0] == seq![s[0]] + rest[0]);
                if i == 0 {
                    assert(s[0] == r[0][0]);
                } else {
                    assert(r[0][i] == rest[0][i - 1]);
                    let j0 = choose|j: int|
                        0 <= j < s.drop_first().len() && s.drop_first()[j] == rest[0][i - 1];
                    assert(s[j0 + 1] == r[k][i]);
                }
            } else {
                assert(r[k] == rest[k]);
                let j0 = choose|j: int|
                    0 <= j < s.drop_first().len() && s.drop_first()[j] == rest[k][i];
                assert(s[j0 + 1] == r[k][i]);
            }
        }
    }
}

/// `s` split at every occurrence of `sep`.
pub fn split_chars(s: &Vec<char>, sep: char) -> (r: Vec<Vec<char>>)
    ensures
        r.deep_view() == split_on(s@, sep),
        r.len() >= 1,
{
    let n = s.len();
    let mut pieces: Vec<Vec<char>> = Vec::new();
    let mut cur: Vec<char> = Vec::new();
    let mut i: usize = 0;
    proof {
        assert(pieces.deep_view() =~~= Seq::<Seq<char>>::empty());
        assert(cur@ + s@.subrange(0, n as int) =~= s@);
    }
    while i < n
        invariant
            n == s@.len(),
            i <= n,
            forall|k: int| 0 <= k < cur@.len() ==> cur@[k] != sep,
            split_on(s@, sep) == pieces.deep_view() + split_on(
                cur@ + s@.subrange(i as int, n as int),
                sep,
            ),
        decreases n - i,
    {
        let c = s[i];
        proof {
            assert(cur@ + s@.subrange(i as int, n as int) =~= (cur@ + seq![s@[i as int]])
                + s@.subrange(i + 1, n as int));
        }
        if c == sep {
            proof {
                lemma_split_concat(cur@, s@.subrange(i + 1, n as int), sep);
                assert(cur@ + seq![sep] + s@.subrange(i + 1, n as int) =~= (cur@ + seq![
                    s@[i as int],
                ]) + s@.subrange(i + 1, n as int));
            }
            let ghost prev_pieces = pieces.deep_view();
            let ghost cur_view = cur@;
            pieces.push(cur);
            cur = Vec::new();
            proof {
                assert(pieces.deep_view() =~~= prev_pieces + seq![cur_view]);
                assert(prev_pieces + (seq![cur_view] + split_on(
                    s@.subrange(i + 1, n as int),
                    sep,
                )) =~~= pieces.deep_view() + split_on(s@.subrange(i + 1, n as int), sep));
                assert(cur@ + s@.subrange(i + 1, n as int) =~= s@.subrange(i + 1, n as int));
            }
        } else {
            let ghost prev_cur = cur@;
            cur.push(c);
            proof {
                assert(cur@ =~= prev_cur + seq![s@[i as int]]);
                assert(cur@ + s@.subrange(i + 1, n as int) =~= (prev_cur + seq![s@[i as int]])
                    + s@.subrange(i + 1, n as int));
            }
        }
        i = i + 1;
    }
    proof {
        assert(cur@ + s@.subrange(i as int, n as int) =~= cur@);
        lemma_split_no_sep(cur@, sep);
    }
    let ghost prev_pieces = pieces.deep_view();
    let ghost cur_view = cur@;
    pieces.push(cur);
    proof {
        assert(pieces.deep_view() =~~= prev_pieces + seq![cur_view]);
        assert(pieces.deep_view() =~~= split_on(s@, sep));
    }
    pieces
}

} // verus!
