//! The pending-video set: ids whose live or upcoming status is not final.

use crate::text::{chars_of, push_char};
use vstd::prelude::*;
use vstd::string::*;

verus! {

/// The texts of a list of strings.
pub open spec fn texts(s: Seq<String>) -> Seq<Seq<char>> {
    s.map_values(|x: String| x@)
}

/// No text occurs twice.
pub open spec fn distinct(s: Seq<Seq<char>>) -> bool {
    forall|i: int, j: int| 0 <= i < j < s.len() ==> s[i] != s[j]
}

/// `s` with `t` appended unless it is already there.
pub open spec fn with_text(s: Seq<Seq<char>>, t: Seq<char>) -> Seq<Seq<char>> {
    if s.contains(t) {
        s
    } else {
        s.push(t)
    }
}

/// The distinct texts of `s`, in order of first occurrence.
pub open spec fn dedup(s: Seq<Seq<char>>) -> Seq<Seq<char>>
    decreases s.len(),
{
    if s.len() == 0 {
        Seq::empty()
    } else {
        with_text(dedup(s.drop_last()), s.last())
    }
}

pub proof fn lemma_dedup(s: Seq<Seq<char>>)
    ensures
        distinct(dedup(s)),
        forall|t: Seq<char>| dedup(s).contains(t) <==> s.contains(t),
    decreases s.len(),
{
    if s.len() > 0 {
        lemma_dedup(s.drop_last());
        let d = dedup(s.drop_last());
        assert forall|t: Seq<char>| dedup(s).contains(t) <==> s.contains(t) by {
            if s.contains(t) && t != s.last() {
                let i = choose|i: int| 0 <= i < s.len() && s[i] == t;
                assert(s.drop_last()[i] == t);
            }
            if s.drop_last().contains(t) {
                let i = choose|i: int| 0 <= i < s.drop_last().len() && s.drop_last()[i] == t;
                assert(s[i] == t);
            }
            if !d.contains(s.last()) && dedup(s).contains(t) && t != s.last() {
                let i = choose|i: int| 0 <= i < dedup(s).len() && dedup(s)[i] == t;
                assert(d[i] == t);
            }
            if !d.contains(s.last()) && d.contains(t) {
                let i = choose|i: int| 0 <= i < d.len() && d[i] == t;
                assert(dedup(s)[i] == t);
            }
            if !d.contains(s.last()) && t == s.last() {
                assert(dedup(s)[d.len() as int] == t);
            }
        }
    }
}

/// Whether `t` is one of the texts of `v`.
pub fn contains_text(v: &Vec<String>, t: &String) -> (r: bool)
    ensures
        r == texts(v@).contains(t@),
{
    let mut i: usize = 0;
    while i < v.len()
        invariant
            i <= v.len(),
            forall|j: int| 0 <= j < i ==> v@[j]@ != t@,
        decreases v.len() - i,
    {
        if v[i].eq(t) {
            assert(texts(v@)[i as int] == t@);
            return true;
        }
        i = i + 1;
    }
    assert(!texts(v@).contains(t@)) by {
        if texts(v@).contains(t@) {
            let j = choose|j: int| 0 <= j < texts(v@).len() && texts(v@)[j] == t@;
            assert(v@[j]@ == t@);
        }
    }
    false
}

/// Appends `t` to `v` unless it is already there.
pub fn push_text(v: &mut Vec<String>, t: String)
    ensures
        texts(final(v)@) == with_text(texts(old(v)@), t@),
{
    if !contains_text(v, &t) {
        v.push(t);
        assert(texts(final(v)@) =~= texts(old(v)@).push(t@));
    }
}

/// Unicode white space, as `char::is_whitespace` defines it.
pub open spec fn is_white(c: char) -> bool {
    c == '\t' || c == '\n' || c == '\u{0B}' || c == '\u{0C}' || c == '\r' || c == ' '
        || c == '\u{85}' || c == '\u{A0}' || c == '\u{1680}'
        || ('\u{2000}' <= c && c <= '\u{200A}')
        || c == '\u{2028}' || c == '\u{2029}' || c == '\u{202F}' || c == '\u{205F}'
        || c == '\u{3000}'
}

fn white(c: char) -> (r: bool)
    ensures
        r == is_white(c),
{
    c == '\t' || c == '\n' || c == '\u{0B}' || c == '\u{0C}' || c == '\r' || c == ' '
        || c == '\u{85}' || c == '\u{A0}' || c == '\u{1680}'
        || ('\u{2000}' <= c && c <= '\u{200A}')
        || c == '\u{2028}' || c == '\u{2029}' || c == '\u{202F}' || c == '\u{205F}'
        || c == '\u{3000}'
}

/// The line holds something besides white space.
pub open spec fn is_content_line(line: Seq<char>) -> bool {
    exists|i: int| 0 <= i < line.len() && !is_white(line[i])
}

/// The lines of `text` split at `'\n'`: the finished ones, then the last, open one.
pub open spec fn split_lines_acc(text: Seq<char>) -> (Seq<Seq<char>>, Seq<char>)
    decreases text.len(),
{
    if text.len() == 0 {
        (Seq::empty(), Seq::empty())
    } else {
        let (done, cur) = split_lines_acc(text.drop_last());
        if text.last() == '\n' {
            (done.push(cur), Seq::empty())
        } else {
            (done, cur.push(text.last()))
        }
    }
}

/// The lines of `text`, split at `'\n'`, as `str::split` gives them.
pub open spec fn split_lines(text: Seq<char>) -> Seq<Seq<char>> {
    split_lines_acc(text).0.push(split_lines_acc(text).1)
}

/// The lines of `lines` that hold something besides white space.
pub open spec fn content_lines(lines: Seq<Seq<char>>) -> Seq<Seq<char>>
    decreases lines.len(),
{
    if lines.len() == 0 {
        Seq::empty()
    } else if is_content_line(lines.last()) {
        content_lines(lines.drop_last()).push(lines.last())
    } else {
        content_lines(lines.drop_last())
    }
}

fn has_content(line: &Vec<char>) -> (r: bool)
    ensures
        r == is_content_line(line@),
{
    let mut i: usize = 0;
    while i < line.len()
        invariant
            i <= line.len(),
            forall|j: int| 0 <= j < i ==> is_white(#[trigger] line@[j]),
        decreases line.len() - i,
    {
        if !white(line[i]) {
            return true;
        }
        i = i + 1;
    }
    false
}

fn line_text(line: &Vec<char>) -> (r: String)
    ensures
        r@ == line@,
{
    crate::text::text_of_chars(line)
}

/// The lines of `text` that hold something besides white space, in order.
pub fn non_blank_lines(text: &str) -> (r: Vec<String>)
    ensures
        texts(r@) == content_lines(split_lines(text@)),
{
    let cs = chars_of(text);
    let mut out: Vec<String> = Vec::new();
    let mut cur: Vec<char> = Vec::new();
    let mut i: usize = 0;
    assert(cs@.take(0) =~= Seq::<char>::empty());
    while i < cs.len()
        invariant
            i <= cs.len(),
            cs@ == text@,
            cur@ == split_lines_acc(cs@.take(i as int)).1,
            texts(out@) == content_lines(split_lines_acc(cs@.take(i as int)).0),
        decreases cs.len() - i,
    {
        assert(cs@.take(i + 1).drop_last() =~= cs@.take(i as int));
        if cs[i] == '\n' {
            let keep = has_content(&cur);
            if keep {
                let line = line_text(&cur);
                out.push(line);
            }
            cur = Vec::new();
            proof {
                let done = split_lines_acc(cs@.take(i as int)).0;
                assert(done.push(split_lines_acc(cs@.take(i as int)).1).drop_last() =~= done);
                assert(texts(out@) =~= content_lines(done.push(split_lines_acc(cs@.take(i as int)).1)));
            }
        } else {
            cur.push(cs[i]);
        }
        i = i + 1;
    }
    assert(cs@.take(cs.len() as int) =~= cs@);
    let keep = has_content(&cur);
    if keep {
        let line = line_text(&cur);
        out.push(line);
    }
    proof {
        let done = split_lines_acc(cs@).0;
        assert(done.push(split_lines_acc(cs@).1).drop_last() =~= done);
        assert(texts(out@) =~= content_lines(split_lines(text@)));
    }
    out
}

/// The set of video ids whose status is not final.
pub struct YtVideosSave {
    pub ids: Vec<String>,
}

impl YtVideosSave {
    /// The ids, as texts.
    pub open spec fn id_texts(&self) -> Seq<Seq<char>> {
        texts(self.ids@)
    }

    pub open spec fn wf(&self) -> bool {
        distinct(self.id_texts())
    }

    /// An empty set.
    pub fn new() -> (r: YtVideosSave)
        ensures
            r.wf(),
            r.id_texts().len() == 0,
    {
        YtVideosSave { ids: Vec::new() }
    }

    /// Appends to `target` each id of the set that it does not yet hold.
    pub fn dump(&self, target: &mut Vec<String>)
        ensures
            texts(final(target)@) == dedup_onto(texts(old(target)@), self.id_texts()),
    {
        let mut i: usize = 0;
        assert(self.id_texts().take(0) =~= Seq::<Seq<char>>::empty());
        while i < self.ids.len()
            invariant
                i <= self.ids.len(),
                texts(target@) == dedup_onto(texts(old(target)@), self.id_texts().take(i as int)),
            decreases self.ids.len() - i,
        {
            assert(self.id_texts().take(i + 1).drop_last() =~= self.id_texts().take(i as int));
            push_text(target, self.ids[i].clone());
            i = i + 1;
        }
        assert(self.id_texts().take(self.ids.len() as int) =~= self.id_texts());
    }

    /// Replaces the set's contents.
    pub fn set(&mut self, new_value: Vec<String>)
        requires
            distinct(texts(new_value@)),
        ensures
            final(self).ids@ == new_value@,
            final(self).wf(),
    {
        self.ids = new_value;
    }

    /// Adds one id.
    pub fn push_checked(&mut self, new_value: String)
        requires
            old(self).wf(),
        ensures
            final(self).wf(),
            final(self).id_texts() == with_text(old(self).id_texts(), new_value@),
    {
        push_text(&mut self.ids, new_value);
        proof {
            lemma_with_text_distinct(old(self).id_texts(), new_value@);
        }
    }

    /// Adds every non-blank line of a saved snapshot.
    pub fn extend_from_str(&mut self, value: &str)
        requires
            old(self).wf(),
        ensures
            final(self).wf(),
            final(self).id_texts() == dedup_onto(old(self).id_texts(), content_lines(split_lines(value@))),
    {
        let lines = non_blank_lines(value);
        let mut i: usize = 0;
        assert(texts(lines@).take(0) =~= Seq::<Seq<char>>::empty());
        while i < lines.len()
            invariant
                i <= lines.len(),
                texts(lines@) == content_lines(split_lines(value@)),
                self.wf(),
                self.id_texts() == dedup_onto(old(self).id_texts(), texts(lines@).take(i as int)),
            decreases lines.len() - i,
        {
            assert(texts(lines@).take(i + 1).drop_last() =~= texts(lines@).take(i as int));
            self.push_checked(lines[i].clone());
            i = i + 1;
        }
        assert(texts(lines@).take(lines.len() as int) =~= texts(lines@));
    }

    /// The snapshot text: the ids separated by newlines.
    pub fn to_string(&self) -> (r: String)
        ensures
            r@ == join_lines(self.id_texts()),
    {
        let mut s = String::new();
        let mut i: usize = 0;
        assert(self.id_texts().take(0) =~= Seq::<Seq<char>>::empty());
        while i < self.ids.len()
            invariant
                i <= self.ids.len(),
                s@ == join_lines(self.id_texts().take(i as int)),
            decreases self.ids.len() - i,
        {
            assert(self.id_texts().take(i + 1).drop_last() =~= self.id_texts().take(i as int));
            if i > 0 {
                push_char(&mut s, '\n');
            }
            s.append(self.ids[i].as_str());
            i = i + 1;
            assert(s@ =~= join_lines(self.id_texts().take(i as int)));
        }
        assert(self.id_texts().take(self.ids.len() as int) =~= self.id_texts());
        s
    }
}

/// `base` followed by the texts of `more` that it does not yet hold.
pub open spec fn dedup_onto(base: Seq<Seq<char>>, more: Seq<Seq<char>>) -> Seq<Seq<char>>
    decreases more.len(),
{
    if more.len() == 0 {
        base
    } else {
        with_text(dedup_onto(base, more.drop_last()), more.last())
    }
}

/// The texts joined by newlines.
pub open spec fn join_lines(s: Seq<Seq<char>>) -> Seq<char>
    decreases s.len(),
{
    if s.len() == 0 {
        Seq::empty()
    } else if s.len() == 1 {
        s[0]
    } else {
        join_lines(s.drop_last()).push('\n') + s.last()
    }
}

pub proof fn lemma_with_text_distinct(s: Seq<Seq<char>>, t: Seq<char>)
    requires
        distinct(s),
    ensures
        distinct(with_text(s, t)),
        forall|x: Seq<char>| with_text(s, t).contains(x) <==> (s.contains(x) || x == t),
{
    if !s.contains(t) {
        assert forall|i: int, j: int| 0 <= i < j < s.push(t).len() implies s.push(t)[i] != s.push(t)[j] by {
            if j == s.len() {
                assert(s[i] == s.push(t)[i]);
            }
        }
        assert forall|x: Seq<char>| s.push(t).contains(x) <==> (s.contains(x) || x == t) by {
            if s.push(t).contains(x) && x != t {
                let i = choose|i: int| 0 <= i < s.push(t).len() && s.push(t)[i] == x;
                assert(s[i] == x);
            }
            if s.contains(x) {
                let i = choose|i: int| 0 <= i < s.len() && s[i] == x;
                assert(s.push(t)[i] == x);
            }
            if x == t {
                assert(s.push(t)[s.len() as int] == x);
            }
        }
    }
}

} // verus!
