//! The log of messages shown to the player, newest line first.
use std::collections::VecDeque;
use vstd::prelude::*;
use vstd::string::StringExecFns;

verus! {

pub struct MessageLog {
    log: VecDeque<String>,
    next_line: bool,
    pub valid: bool,
}

/// The log after appending `text`: it goes on the newest line, followed by
/// a space, or starts a new line when one was asked for or there is none.
pub open spec fn appended_lines(lines: Seq<Seq<char>>, next_line: bool, text: Seq<char>) -> Seq<
    Seq<char>,
> {
    if next_line {
        seq![text + seq![' ']] + lines
    } else if lines.len() == 0 {
        seq![text + seq![' ']]
    } else {
        seq![lines[0] + text + seq![' ']] + lines.drop_first()
    }
}

/// Appending never loses a line: a new line is added in front when one was
/// asked for (or the log is empty), and otherwise the newest line grows.
/// Every older line is kept as it was, and the newest line ends with the
/// text and a space.
pub proof fn law_append_keeps_lines(lines: Seq<Seq<char>>, next_line: bool, text: Seq<char>)
    ensures
        ({
            let after = appended_lines(lines, next_line, text);
            let starts = next_line || lines.len() == 0;
            &&& after.len() == lines.len() + if starts {
                1int
            } else {
                0int
            }
            &&& starts ==> after[0] == text + seq![' ']
            &&& starts ==> forall|i: int| 0 <= i < lines.len() ==> after[i + 1] == lines[i]
            &&& !starts ==> after[0] == lines[0] + text + seq![' ']
            &&& !starts ==> forall|i: int| 1 <= i < lines.len() ==> after[i] == lines[i]
        }),
{
}

impl MessageLog {
    /// The lines of the log, newest first.
    pub closed spec fn lines(&self) -> Seq<Seq<char>> {
        self.log@.map_values(|s: String| s@)
    }

    /// The `valid` flag.
    pub closed spec fn valid_flag(&self) -> bool {
        self.valid
    }

    /// Whether the next text starts a new line.
    pub closed spec fn starts_new_line(&self) -> bool {
        self.next_line
    }

    pub fn new() -> (m: Self)
        ensures
            m.lines() == Seq::<Seq<char>>::empty(),
            m.starts_new_line(),
            !m.valid_flag(),
    {
        let m = MessageLog { log: VecDeque::new(), next_line: true, valid: false };
        assert(m.lines() =~= Seq::<Seq<char>>::empty());
        m
    }

    /// Forgets every line.
    pub fn clear(&mut self)
        ensures
            final(self).lines() == Seq::<Seq<char>>::empty(),
            final(self).starts_new_line() == old(self).starts_new_line(),
            final(self).valid_flag() == old(self).valid_flag(),
    {
        self.log.clear();
        assert(self.lines() =~= Seq::<Seq<char>>::empty());
    }

    /// Appends text to the newest line.
    pub fn append(&mut self, text: &str)
        ensures
            final(self).lines() == appended_lines(
                old(self).lines(),
                old(self).starts_new_line(),
                text@,
            ),
            !final(self).starts_new_line(),
            final(self).valid_flag() == old(self).valid_flag(),
    {
        let ghost old_lines = self.lines();
        if self.next_line {
            self.log.push_front(String::new());
            self.next_line = false;
        }
        let ghost mid = self.log@;
        let mut current = match self.log.pop_front() {
            Some(line) => line,
            None => String::new(),
        };
        let ghost rest = self.log@;
        let ghost cur0 = current@;
        proof {
            if mid.len() > 0 {
                assert(cur0 == mid[0]@);
                assert(rest =~= mid.drop_first());
            } else {
                assert(cur0 == Seq::<char>::empty());
                assert(rest =~= mid);
            }
            if old(self).next_line {
                assert(mid =~= seq![mid[0]] + old(self).log@);
                assert(mid[0]@ == Seq::<char>::empty());
                assert(rest =~= old(self).log@);
            } else {
                assert(mid =~= old(self).log@);
            }
        }
        current.append(text);
        current.append(" ");
        proof {
            reveal_strlit(" ");
            assert(current@ == cur0 + text@ + seq![' ']);
        }
        self.log.push_front(current);
        proof {
            assert(self.log@ =~= seq![current] + rest);
            let l = self.lines();
            let want = appended_lines(old_lines, old(self).next_line, text@);
            assert(l.len() == want.len());
            assert forall|k: int| 0 <= k < l.len() implies l[k] == want[k] by {
                if k == 0 {
                    assert(l[0] == current@);
                } else {
                    assert(l[k] == rest[k - 1]@);
                }
            }
            assert(l =~= want);
        }
    }

    /// Makes the next text start a new line.
    pub fn next_line(&mut self)
        ensures
            final(self).lines() == old(self).lines(),
            final(self).starts_new_line(),
            final(self).valid_flag() == old(self).valid_flag(),
    {
        self.next_line = true;
    }

    /// The newest `line_count` lines, or all of them if there are fewer.
    pub fn get_lines(&self, line_count: usize) -> (lines: Vec<String>)
        ensures
            lines@.map_values(|s: String| s@) == self.lines().take(
                if line_count < self.lines().len() {
                    line_count as int
                } else {
                    self.lines().len() as int
                },
            ),
    {
        let n = if line_count < self.log.len() {
            line_count
        } else {
            self.log.len()
        };
        let mut lines: Vec<String> = Vec::new();
        let mut i: usize = 0;
        while i < n
            invariant
                n <= self.log@.len(),
                i <= n,
                lines.len() == i,
                lines@.map_values(|s: String| s@) == self.lines().take(i as int),
            decreases n - i,
        {
            let line = self.log[i].clone();
            proof {
                assert(line@ == self.log@[i as int]@);
            }
            let ghost before = lines@;
            lines.push(line);
            proof {
                let got = lines@.map_values(|s: String| s@);
                let want = self.lines().take(i + 1);
                assert forall|k: int| 0 <= k < i + 1 implies got[k] == want[k] by {
                    if k < i {
                        assert(lines@[k] == before[k]);
                        assert(before.map_values(|s: String| s@)[k] == self.lines().take(
                            i as int,
                        )[k]);
                    }
                }
                assert(got =~= want);
            }
            i = i + 1;
        }
        lines
    }
}

} // verus!
