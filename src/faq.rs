//! Reading question-and-answer pairs out of an FAQ text, one line at a time.
//!
//! Each line is trimmed. Blank lines and lines that start with `===` are
//! skipped. `Q: ` starts a question, `A: ` sets its answer, and any other line
//! continues an answer already begun. A pair is complete once both parts are
//! non-empty; it is handed out, as `Q: <question>\nA: <answer>`, when the next
//! question starts or when the text ends.
use vstd::prelude::*;

verus! {

/// What `str::trim` leaves of a line.
pub uninterp spec fn trimmed(s: Seq<char>) -> Seq<char>;

/// Relies on `str::trim`: the line without leading and trailing whitespace.
#[verifier::external_body]
fn trim_line(s: &str) -> (r: String)
    ensures
        r@ == trimmed(s@),
{
    s.trim().to_string()
}

/// Whether `s` starts with `p`.
pub open spec fn has_prefix(s: Seq<char>, p: Seq<char>) -> bool {
    p.len() <= s.len() && s.subrange(0, p.len() as int) == p
}

/// `Q: `, which opens a question.
pub open spec fn question_tag() -> Seq<char> {
    seq!['Q', ':', ' ']
}

/// `A: `, which opens an answer.
pub open spec fn answer_tag() -> Seq<char> {
    seq!['A', ':', ' ']
}

/// `===`, which opens a line to skip.
pub open spec fn rule_tag() -> Seq<char> {
    seq!['=', '=', '=']
}

/// The label under which a question and its answer are stored.
pub open spec fn combined(q: Seq<char>, a: Seq<char>) -> Seq<char> {
    question_tag() + q + seq!['\n'] + answer_tag() + a
}

/// A pair, if both of its parts are non-empty.
pub open spec fn complete_pair(q: Seq<char>, a: Seq<char>) -> Option<Seq<char>> {
    if q.len() > 0 && a.len() > 0 {
        Some(combined(q, a))
    } else {
        None
    }
}

/// The view of an optional string.
pub open spec fn opt_view(o: Option<String>) -> Option<Seq<char>> {
    match o {
        Some(s) => Some(s@),
        None => None,
    }
}

/// The question and answer being read, after `feed` of a line whose trimmed
/// text is `t`, when they were `q` and `a` before.
pub open spec fn next_state(q: Seq<char>, a: Seq<char>, t: Seq<char>) -> (Seq<char>, Seq<char>) {
    if t.len() == 0 || has_prefix(t, rule_tag()) {
        (q, a)
    } else if has_prefix(t, question_tag()) {
        (t.subrange(3, t.len() as int), Seq::empty())
    } else if has_prefix(t, answer_tag()) {
        (q, t.subrange(3, t.len() as int))
    } else if a.len() > 0 {
        (q, a + seq!['\n'] + t)
    } else {
        (q, a)
    }
}

/// The pair that a line with trimmed text `t` completes, when the question and
/// answer being read are `q` and `a`.
pub open spec fn emitted(q: Seq<char>, a: Seq<char>, t: Seq<char>) -> Option<Seq<char>> {
    if t.len() != 0 && !has_prefix(t, rule_tag()) && has_prefix(t, question_tag()) {
        complete_pair(q, a)
    } else {
        None
    }
}

/// The state of a reader between two lines.
pub struct FaqReader {
    pub question: String,
    pub answer: String,
}

/// Whether `s` starts with the three characters `c0 c1 c2`.
fn starts_with3(s: &str, c0: char, c1: char, c2: char) -> (r: bool)
    ensures
        r == has_prefix(s@, seq![c0, c1, c2]),
{
    let n = s.unicode_len();
    if n < 3 {
        return false;
    }
    let r = s.get_char(0) == c0 && s.get_char(1) == c1 && s.get_char(2) == c2;
    proof {
        if r {
            assert(s@.subrange(0, 3) =~= seq![c0, c1, c2]);
        } else if has_prefix(s@, seq![c0, c1, c2]) {
            assert(s@.subrange(0, 3)[0] == c0);
            assert(s@.subrange(0, 3)[1] == c1);
            assert(s@.subrange(0, 3)[2] == c2);
        }
    }
    r
}

/// `Q: <question>\nA: <answer>`.
fn combine(q: &String, a: &String) -> (r: String)
    ensures
        r@ == combined(q@, a@),
{
    proof {
        reveal_strlit("Q: ");
        reveal_strlit("\nA: ");
    }
    let mut r = String::from_str("Q: ");
    r.append(q.as_str());
    r.append("\nA: ");
    r.append(a.as_str());
    assert(r@ =~= combined(q@, a@));
    r
}

impl FaqReader {
    /// A reader at the start of a text.
    pub fn new() -> (r: FaqReader)
        ensures
            r.question@.len() == 0,
            r.answer@.len() == 0,
    {
        FaqReader { question: String::new(), answer: String::new() }
    }

    /// Reads one line, and returns the pair that it completes, if any.
    pub fn feed(&mut self, line: &str) -> (r: Option<String>)
        ensures
            opt_view(r) == emitted(old(self).question@, old(self).answer@, trimmed(line@)),
            (final(self).question@, final(self).answer@) == next_state(
                old(self).question@,
                old(self).answer@,
                trimmed(line@),
            ),
    {
        let t = trim_line(line);
        self.feed_trimmed(t.as_str())
    }

    /// Reads one line that has already been trimmed, and returns the pair
    /// that it completes, if any.
    pub fn feed_trimmed(&mut self, t: &str) -> (r: Option<String>)
        ensures
            opt_view(r) == emitted(old(self).question@, old(self).answer@, t@),
            (final(self).question@, final(self).answer@) == next_state(
                old(self).question@,
                old(self).answer@,
                t@,
            ),
    {
        let n = t.unicode_len();
        if n == 0 || starts_with3(t, '=', '=', '=') {
            return None;
        }
        if starts_with3(t, 'Q', ':', ' ') {
            let out = self.finish();
            self.question = String::from_str(t.substring_char(3, n));
            self.answer = String::new();
            assert(self.answer@ =~= Seq::<char>::empty());
            out
        } else if starts_with3(t, 'A', ':', ' ') {
            self.answer = String::from_str(t.substring_char(3, n));
            None
        } else {
            if self.answer.as_str().unicode_len() > 0 {
                proof {
                    reveal_strlit("\n");
                }
                self.answer.append("\n");
                self.answer.append(t);
                assert(self.answer@ =~= old(self).answer@ + seq!['\n'] + t@);
            }
            None
        }
    }

    /// The pair still held when the text ends, if both of its parts are there.
    pub fn finish(&self) -> (r: Option<String>)
        ensures
            opt_view(r) == complete_pair(self.question@, self.answer@),
    {
        if self.question.as_str().unicode_len() > 0 && self.answer.as_str().unicode_len() > 0 {
            Some(combine(&self.question, &self.answer))
        } else {
            None
        }
    }
}

} // verus!
