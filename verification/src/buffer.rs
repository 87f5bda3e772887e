//! Offline buffer: a bounded FIFO queue of wire messages awaiting delivery.
//!
//! While the agent is disconnected from its gateway, outgoing messages are
//! parked here.  The queue is bounded: pushing onto a full buffer evicts the
//! oldest entry and still succeeds.  Each entry is one JSON-encoded message;
//! the on-disk form is newline-delimited, one message per line, and loading
//! keeps only the lines that parse as JSON, skipping anything corrupt.

use vstd::prelude::*;

verus! {

use std::collections::VecDeque;
use crate::text::find_char_from;
use crate::shims::{is_json_text, parses_as_json};

/// True when `s` contains no line feed, so it can stand on one line of the
/// buffer file.
pub open spec fn line_free(s: Seq<char>) -> bool {
    forall|i: int| 0 <= i < s.len() ==> s[i] != '\n'
}

/// The number of entries a buffer created with `max_size` can hold.  A zero
/// bound still admits one entry: eviction happens before insertion, so the
/// queue momentarily empties and then receives the new entry.
pub open spec fn cap_of(max_size: usize) -> int {
    if max_size == 0 {
        1
    } else {
        max_size as int
    }
}

/// The on-disk rendering of buffer entries: each entry followed by a line
/// feed.
pub open spec fn file_contents_of(entries: Seq<Seq<char>>) -> Seq<char>
    decreases entries.len(),
{
    if entries.len() == 0 {
        Seq::empty()
    } else {
        entries[0] + seq!['\n'] + file_contents_of(entries.skip(1))
    }
}

/// Position of the first line feed in `s`, or `s.len()` if there is none.
pub open spec fn first_nl(s: Seq<char>) -> nat
    decreases s.len(),
{
    if s.len() == 0 {
        0
    } else if s[0] == '\n' {
        0
    } else {
        1 + first_nl(s.skip(1))
    }
}

/// The non-empty lines of `s`, in order.
pub open spec fn lines_of(s: Seq<char>) -> Seq<Seq<char>>
    decreases s.len(),
{
    if s.len() == 0 {
        Seq::empty()
    } else {
        let i = first_nl(s) as int;
        let head = s.take(i);
        let rest = if i < s.len() {
            s.skip(i + 1)
        } else {
            Seq::<char>::empty()
        };
        if head.len() == 0 {
            lines_of(rest)
        } else {
            seq![head] + lines_of(rest)
        }
    }
}

/// If no line feed stands before `k` and one stands at `k` (or `k` is the
/// end), then `k` is where the first line feed is found.
proof fn lemma_first_nl_at(s: Seq<char>, k: int)
    requires
        0 <= k <= s.len(),
        forall|j: int| 0 <= j < k ==> s[j] != '\n',
        k < s.len() ==> s[k] == '\n',
    ensures
        first_nl(s) == k,
    decreases s.len(),
{
    if s.len() == 0 {
    } else if s[0] == '\n' {
        assert(k == 0);
    } else {
        assert(k >= 1);
        let t = s.skip(1);
        assert forall|j: int| 0 <= j < k - 1 implies t[j] != '\n' by {
            assert(t[j] == s[j + 1]);
        }
        if k - 1 < t.len() {
            assert(t[k - 1] == s[k]);
        }
        lemma_first_nl_at(t, k - 1);
    }
}

/// Writing entries to the file form and splitting them back yields the
/// same entries: the newline-delimited format loses nothing, provided each
/// entry is a non-empty single line.
pub proof fn lemma_file_round_trip(entries: Seq<Seq<char>>)
    requires
        forall|i: int|
            0 <= i < entries.len() ==> #[trigger] line_free(entries[i]) && entries[i].len() > 0,
    ensures
        lines_of(file_contents_of(entries)) == entries,
    decreases entries.len(),
{
    if entries.len() == 0 {
        assert(lines_of(file_contents_of(entries)) =~= entries);
    } else {
        let e = entries[0];
        let rest = entries.skip(1);
        let s = file_contents_of(entries);
        let tail = file_contents_of(rest);
        assert(s == e + seq!['\n'] + tail);
        assert forall|j: int| 0 <= j < e.len() implies s[j] != '\n' by {
            assert(s[j] == e[j]);
            assert(line_free(e));
        }
        assert(line_free(entries[0]) && entries[0].len() > 0);
        assert(s[e.len() as int] == '\n');
        lemma_first_nl_at(s, e.len() as int);
        assert(first_nl(s) == e.len());
        assert(e.len() < s.len());
        assert(s.take(e.len() as int) =~= e);
        assert(s.skip(e.len() as int + 1) =~= tail);
        assert forall|i: int|
            0 <= i < rest.len() implies #[trigger] line_free(rest[i]) && rest[i].len() > 0 by {
            assert(rest[i] == entries[i + 1]);
        }
        lemma_file_round_trip(rest);
        assert(lines_of(s) == seq![e] + lines_of(tail));
        assert(seq![e] + rest =~= entries);
    }
}

/// The lines that parse as JSON: what loading keeps.
pub open spec fn json_lines(ls: Seq<Seq<char>>) -> Seq<Seq<char>> {
    ls.filter(|l: Seq<char>| parses_as_json(l))
}

/// The load filter keeps a sequence of JSON lines whole.
proof fn lemma_json_lines_all(ls: Seq<Seq<char>>)
    requires
        forall|i: int| 0 <= i < ls.len() ==> parses_as_json(#[trigger] ls[i]),
    ensures
        json_lines(ls) == ls,
    decreases ls.len(),
{
    reveal(Seq::filter);
    if ls.len() == 0 {
        assert(json_lines(ls) =~= ls);
    } else {
        let dl = ls.drop_last();
        assert forall|i: int| 0 <= i < dl.len() implies parses_as_json(#[trigger] dl[i]) by {
            assert(dl[i] == ls[i]);
        }
        lemma_json_lines_all(dl);
        assert(parses_as_json(ls.last()));
        assert(json_lines(ls) == json_lines(dl).push(ls.last()));
        assert(dl.push(ls.last()) =~= ls);
    }
}

/// Saving entries that are JSON texts and loading them back gives the same
/// entries: the filter only drops what was never a message.
pub proof fn lemma_file_round_trip_json(entries: Seq<Seq<char>>)
    requires
        forall|i: int|
            0 <= i < entries.len() ==> #[trigger] line_free(entries[i]) && entries[i].len() > 0
                && parses_as_json(entries[i]),
    ensures
        json_lines(lines_of(file_contents_of(entries))) == entries,
{
    lemma_file_round_trip(entries);
    assert forall|i: int| 0 <= i < entries.len() implies parses_as_json(#[trigger] entries[i]) by {
        assert(line_free(entries[i]) && entries[i].len() > 0 && parses_as_json(entries[i]));
    }
    lemma_json_lines_all(entries);
}

/// Under a positive bound, a well-formed buffer never holds more than
/// `max_size` entries.
pub proof fn lemma_buffer_bound(b: OfflineBuffer)
    requires
        b.well_formed(),
        b.spec_max_size() >= 1,
    ensures
        b@.len() <= b.spec_max_size(),
{
}

/// The character views of a sequence of strings.
pub open spec fn views_of(q: Seq<String>) -> Seq<Seq<char>> {
    q.map_values(|s: String| s@)
}

proof fn lemma_views_push(q: Seq<String>, x: String)
    ensures
        views_of(q.push(x)) == views_of(q).push(x@),
{
    assert(views_of(q.push(x)) =~= views_of(q).push(x@));
}

/// Bounded FIFO queue of JSON-encoded messages, oldest first.
pub struct OfflineBuffer {
    queue: VecDeque<String>,
    max_size: usize,
}

impl View for OfflineBuffer {
    type V = Seq<Seq<char>>;

    closed spec fn view(&self) -> Seq<Seq<char>> {
        views_of(self.queue@)
    }
}

impl OfflineBuffer {
    /// Every entry is a non-empty single line, and the queue respects the
    /// bound.
    pub open spec fn well_formed(&self) -> bool {
        &&& self@.len() <= cap_of(self.spec_max_size())
        &&& forall|i: int|
            0 <= i < self@.len() ==> #[trigger] line_free(self@[i]) && self@[i].len() > 0
    }

    pub closed spec fn spec_max_size(&self) -> usize {
        self.max_size
    }

    pub fn new(max_size: usize) -> (r: Self)
        ensures
            r@ == Seq::<Seq<char>>::empty(),
            r.spec_max_size() == max_size,
            r.well_formed(),
    {
        OfflineBuffer { queue: VecDeque::new(), max_size }
    }

    /// Append `entry` at the back.  If the buffer is already at its bound,
    /// the oldest entry is dropped first; the push itself always succeeds.
    pub fn push(&mut self, entry: String)
        requires
            old(self).well_formed(),
            line_free(entry@),
            entry@.len() > 0,
        ensures
            final(self).spec_max_size() == old(self).spec_max_size(),
            final(self).well_formed(),
            old(self)@.len() < cap_of(old(self).spec_max_size()) ==> final(self)@ == old(
                self,
            )@.push(entry@),
            old(self)@.len() >= cap_of(old(self).spec_max_size()) ==> final(self)@ == old(
                self,
            )@.skip(1).push(entry@),
            final(self)@.len() > 0 && final(self)@[final(self)@.len() - 1] == entry@,
    {
        let ghost entry_chars = entry@;
        let ghost pre = self@;
        if self.queue.len() >= self.max_size {
            let _ = self.queue.pop_front();
            self.queue.push_back(entry);
            proof {
                if old(self)@.len() == 0 {
                    assert(self@ =~= old(self)@.push(entry_chars));
                } else {
                    assert forall|i: int| 0 <= i < self@.len() implies self@[i] == old(
                        self,
                    )@.skip(1).push(entry_chars)[i] by {
                        if i < self@.len() - 1 {
                            assert(self.queue@[i] == old(self).queue@[i + 1]);
                        }
                    }
                    assert(self@ =~= old(self)@.skip(1).push(entry_chars));
                }
            }
        } else {
            self.queue.push_back(entry);
            proof {
                assert forall|i: int| 0 <= i < self@.len() implies self@[i] == old(self)@.push(
                    entry_chars,
                )[i] by {}
                assert(self@ =~= old(self)@.push(entry_chars));
            }
        }
        proof {
            assert forall|i: int|
                0 <= i < self@.len() implies #[trigger] line_free(self@[i]) && self@[i].len()
                    > 0 by {
                if i == self@.len() - 1 {
                    assert(self@[i] == entry_chars);
                } else if pre.len() >= cap_of(old(self).spec_max_size()) {
                    assert(self@[i] == pre.skip(1)[i]);
                    assert(pre.skip(1)[i] == pre[i + 1]);
                    assert(line_free(pre[i + 1]) && pre[i + 1].len() > 0);
                } else {
                    assert(self@[i] == pre[i]);
                    assert(line_free(pre[i]) && pre[i].len() > 0);
                }
            }
        }
    }

    /// Remove and return the oldest entry, if any.
    pub fn pop(&mut self) -> (r: Option<String>)
        ensures
            final(self).spec_max_size() == old(self).spec_max_size(),
            old(self).well_formed() ==> final(self).well_formed(),
            match r {
                Some(e) => old(self)@.len() > 0 && e@ == old(self)@[0] && final(self)@ == old(
                    self,
                )@.skip(1),
                None => old(self)@.len() == 0 && final(self)@ == old(self)@,
            },
    {
        let r = self.queue.pop_front();
        proof {
            if old(self)@.len() > 0 {
                assert(self@ =~= old(self)@.skip(1));
            } else {
                assert(self@ =~= old(self)@);
            }
        }
        r
    }

    pub fn len(&self) -> (r: usize)
        ensures
            r == self@.len(),
    {
        self.queue.len()
    }

    pub fn is_empty(&self) -> (r: bool)
        ensures
            r == (self@.len() == 0),
    {
        self.queue.len() == 0
    }

    /// Render the buffer as its on-disk form: one entry per line, each
    /// line ended by a line feed.
    pub fn file_contents(&self) -> (r: String)
        ensures
            r@ == file_contents_of(self@),
    {
        let mut out = String::new();
        let mut i: usize = 0;
        proof {
            assert(self@.skip(0) =~= self@);
        }
        while i < self.queue.len()
            invariant
                i <= self.queue.len(),
                self@.len() == self.queue@.len(),
                out@ + file_contents_of(self@.skip(i as int)) == file_contents_of(self@),
            decreases self.queue.len() - i,
        {
            let ghost before = out@;
            out.append(self.queue[i].as_str());
            out.append("\n");
            proof {
                reveal_strlit("\n");
                assert("\n"@ =~= seq!['\n']);
                let t = self@.skip(i as int);
                assert(t[0] == self@[i as int]);
                assert(t.skip(1) =~= self@.skip(i + 1));
                assert(file_contents_of(t) == t[0] + seq!['\n'] + file_contents_of(t.skip(1)));
                assert(out@ =~= before + self@[i as int] + seq!['\n']);
                assert(out@ + file_contents_of(self@.skip(i + 1)) =~= before + file_contents_of(
                    t,
                ));
            }
            i = i + 1;
        }
        proof {
            assert(self@.skip(self@.len() as int) =~= Seq::<Seq<char>>::empty());
            assert(out@ =~= file_contents_of(self@));
        }
        out
    }

    /// Rebuild a buffer from the on-disk form: split `content` on line
    /// feeds, keep only the non-empty lines that parse as JSON — corrupt
    /// lines are for the caller to log and skip — and stop at `max_size`
    /// entries.
    pub fn from_file_contents(max_size: usize, content: &str) -> (r: Self)
        ensures
            r.spec_max_size() == max_size,
            r@ == json_lines(lines_of(content@)).take(
                if max_size as int <= json_lines(lines_of(content@)).len() {
                    max_size as int
                } else {
                    json_lines(lines_of(content@)).len() as int
                },
            ),
            r.well_formed(),
    {
        proof {
            reveal(Seq::filter);
        }
        let n = content.unicode_len();
        let mut queue: VecDeque<String> = VecDeque::new();
        let ghost mut done: Seq<Seq<char>> = Seq::empty();
        let mut pos: usize = 0;
        proof {
            assert(content@.skip(0) =~= content@);
            assert(done + lines_of(content@.skip(0)) =~= lines_of(content@));
            assert(json_lines(done) =~= Seq::<Seq<char>>::empty());
            assert(views_of(queue@) =~= json_lines(done).take(0));
        }
        while pos < n
            invariant
                pos <= n,
                n == content@.len(),
                done + lines_of(content@.skip(pos as int)) == lines_of(content@),
                views_of(queue@) == json_lines(done).take(
                    if max_size as int <= json_lines(done).len() {
                        max_size as int
                    } else {
                        json_lines(done).len() as int
                    },
                ),
                queue@.len() <= max_size,
                forall|k: int|
                    0 <= k < queue@.len() ==> line_free(#[trigger] views_of(queue@)[k])
                        && views_of(queue@)[k].len() > 0,
            decreases n - pos,
        {
            proof {
                reveal(Seq::filter);
            }
            let ghost done0 = done;
            let i = find_char_from(content, pos, '\n');
            let ghost t = content@.skip(pos as int);
            proof {
                assert forall|j: int| 0 <= j < i - pos implies t[j] != '\n' by {
                    assert(t[j] == content@[pos + j]);
                }
                if i < n {
                    assert(t[i - pos] == content@[i as int]);
                }
                lemma_first_nl_at(t, i - pos);
                assert(first_nl(t) == i - pos);
            }
            if i > pos {
                let line = String::from_str(content.substring_char(pos, i));
                proof {
                    assert(line@ =~= t.take(i - pos));
                    done = done.push(line@);
                    assert forall|j: int| 0 <= j < line@.len() implies line@[j] != '\n' by {
                        assert(line@[j] == t[j]);
                    }
                    assert(line_free(line@));
                    assert(line@.len() == i - pos > 0);
                    assert(done.drop_last() =~= done0);
                    assert(done.last() == line@);
                }
                let ghost f0 = json_lines(done0);
                let ghost f1 = json_lines(done);
                let ghost q0 = queue@;
                let ghost qv0 = views_of(queue@);
                if is_json_text(line.as_str()) {
                    proof {
                        assert(f1 == f0.push(line@));
                    }
                    if queue.len() < max_size {
                        queue.push_back(line);
                    }
                    proof {
                        let m = max_size as int;
                        if f0.len() < m {
                            assert(f0.take(f0.len() as int) =~= f0);
                            assert(qv0 == f0);
                            assert(qv0.len() == f0.len());
                            assert(q0.len() < m);
                            lemma_views_push(q0, line);
                            assert(views_of(queue@) == f0.push(line@));
                            assert(f1.take(f1.len() as int) =~= f1);
                            assert(views_of(queue@) == f1.take(
                                if m <= f1.len() {
                                    m
                                } else {
                                    f1.len() as int
                                },
                            ));
                            assert forall|k: int|
                                0 <= k < queue@.len() implies line_free(
                                #[trigger] views_of(queue@)[k],
                            ) && views_of(queue@)[k].len() > 0 by {
                                if k < q0.len() {
                                    assert(views_of(queue@)[k] == qv0[k]);
                                    assert(line_free(qv0[k]) && qv0[k].len() > 0);
                                } else {
                                    assert(views_of(queue@)[k] == line@);
                                }
                            }
                        } else {
                            assert(qv0.len() == m);
                            assert(q0.len() == m);
                            assert(f1.take(m) =~= f0.take(m));
                            assert(views_of(queue@) == f1.take(
                                if m <= f1.len() {
                                    m
                                } else {
                                    f1.len() as int
                                },
                            ));
                        }
                    }
                } else {
                    proof {
                        assert(f1 == f0);
                        assert(views_of(queue@) == f1.take(
                            if max_size as int <= f1.len() {
                                max_size as int
                            } else {
                                f1.len() as int
                            },
                        ));
                    }
                }
            }
            proof {
                let rest: Seq<char> = if i < n {
                    content@.skip(i + 1)
                } else {
                    Seq::<char>::empty()
                };
                if i < n {
                    assert(t.skip(i - pos + 1) =~= rest);
                } else {
                    assert(content@.skip(n as int) =~= Seq::<char>::empty());
                }
                assert(lines_of(t) == if t.take(first_nl(t) as int).len() == 0 {
                    lines_of(rest)
                } else {
                    seq![t.take(first_nl(t) as int)] + lines_of(rest)
                });
                if i > pos {
                    assert(t.take(i - pos) == done.last());
                    assert(done0.push(done.last()) + lines_of(rest) =~= done0 + lines_of(t));
                } else {
                    assert(t.take(first_nl(t) as int).len() == 0);
                }
            }
            pos = if i < n {
                i + 1
            } else {
                n
            };
        }
        proof {
            assert(content@.skip(n as int) =~= Seq::<char>::empty());
            assert(done =~= lines_of(content@));
        }
        let r = OfflineBuffer { queue, max_size };
        proof {
            assert(r@ =~= json_lines(done).take(
                if max_size as int <= json_lines(done).len() {
                    max_size as int
                } else {
                    json_lines(done).len() as int
                },
            ));
            assert forall|k: int|
                0 <= k < r@.len() implies #[trigger] line_free(r@[k]) && r@[k].len() > 0 by {
                assert(r@[k] == views_of(queue@)[k]);
                assert(line_free(views_of(queue@)[k]) && views_of(queue@)[k].len() > 0);
            }
        }
        r
    }

    /// Drop every entry.
    pub fn clear(&mut self)
        ensures
            final(self).spec_max_size() == old(self).spec_max_size(),
            final(self)@ == Seq::<Seq<char>>::empty(),
            final(self).well_formed(),
    {
        self.queue.clear();
        assert(self@ =~= Seq::<Seq<char>>::empty());
    }
}

} // verus!
