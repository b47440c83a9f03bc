use std::collections::VecDeque;

use vstd::prelude::*;

use crate::report::{decimal_digits, push_digits, push_text};
use crate::settings::{joined, texts};
use crate::text::string_from_chars;
use crate::wide::{encode_utf16, utf16_of};

verus! {

/// The most lines the diagnostic log keeps.
pub const MAX_LINES: usize = 500;

/// The lines after appending one: the oldest line leaves once there are more than
/// `MAX_LINES`.
pub open spec fn appended(lines: Seq<Seq<char>>, line: Seq<char>) -> Seq<Seq<char>> {
    let all = lines.push(line);
    if all.len() > MAX_LINES {
        all.drop_first()
    } else {
        all
    }
}

/// The diagnostic log: the most recent lines, oldest first.
pub struct DiagnosticLog {
    lines: VecDeque<String>,
}

impl DiagnosticLog {
    /// The lines, oldest first.
    pub closed spec fn view(&self) -> Seq<Seq<char>> {
        texts(self.lines@)
    }

    /// The log holds no more than `MAX_LINES` lines.
    pub closed spec fn wf(&self) -> bool {
        self.lines@.len() <= MAX_LINES
    }

    /// An empty log.
    pub fn new() -> (log: DiagnosticLog)
        ensures
            log.wf(),
            log.view() == Seq::<Seq<char>>::empty(),
    {
        let log = DiagnosticLog { lines: VecDeque::new() };
        proof {
            assert(log.view() =~= Seq::<Seq<char>>::empty());
        }
        log
    }

    /// The number of lines.
    pub fn len(&self) -> (n: usize)
        ensures
            n == self.view().len(),
    {
        self.lines.len()
    }

    /// Forgets every line.
    pub fn clear(&mut self)
        ensures
            final(self).wf(),
            final(self).view() == Seq::<Seq<char>>::empty(),
    {
        self.lines.clear();
        proof {
            assert(self.view() =~= Seq::<Seq<char>>::empty());
        }
    }

    /// Adds a line at the end, dropping the oldest one when the log is full.
    pub fn append(&mut self, line: String)
        requires
            old(self).wf(),
        ensures
            final(self).wf(),
            final(self).view() == appended(old(self).view(), line@),
    {
        let ghost before = self.view();
        let ghost text = line@;
        self.lines.push_back(line);
        proof {
            assert(self.view() =~= before.push(text));
        }
        if self.lines.len() > MAX_LINES {
            self.lines.pop_front();
            proof {
                assert(self.view() =~= before.push(text).drop_first());
            }
        }
    }

    /// The whole log as one text, lines separated by CR LF.
    pub fn text(&self) -> (s: String)
        ensures
            s@ == joined(self.view(), "\r\n"@),
    {
        let mut out: Vec<char> = Vec::new();
        let mut i: usize = 0;
        while i < self.lines.len()
            invariant
                0 <= i <= self.lines@.len(),
                out@ == joined(texts(self.lines@.take(i as int)), "\r\n"@),
            decreases self.lines@.len() - i,
        {
            proof {
                assert(texts(self.lines@.take(i + 1)).drop_last() =~= texts(self.lines@.take(i as int)));
                assert(texts(self.lines@.take(i + 1)).last() == self.lines@[i as int]@);
            }
            if i > 0 {
                push_text(&mut out, "\r\n");
            }
            push_text(&mut out, self.lines[i].as_str());
            proof {
                if i == 0 {
                    assert(texts(self.lines@.take(1))[0] == self.lines@[0]@);
                    assert(out@ =~= self.lines@[0]@);
                }
            }
            i += 1;
        }
        proof {
            assert(self.lines@.take(self.lines@.len() as int) =~= self.lines@);
        }
        string_from_chars(&out)
    }
}

/// The log never holds more than `MAX_LINES` lines, and after an append its last line
/// is the new one and the lines before it are the latest of the earlier ones, in order.
pub proof fn lemma_append_keeps_latest(lines: Seq<Seq<char>>, line: Seq<char>)
    requires
        lines.len() <= MAX_LINES,
    ensures
        appended(lines, line).len() <= MAX_LINES,
        appended(lines, line).last() == line,
        appended(lines, line).drop_last() == lines.skip(lines.len() + 1 - appended(lines, line).len()),
{
    let all = lines.push(line);
    if all.len() > MAX_LINES {
        assert(all.drop_first().drop_last() =~= lines.skip(1));
    } else {
        assert(all.drop_last() =~= lines.skip(0));
    }
}

/// The digits of `n`, with zeros in front to make at least `width` characters (the
/// `{:0width}` format).
pub open spec fn zero_padded(n: nat, width: nat) -> Seq<char> {
    let digits = decimal_digits(n);
    if digits.len() >= width {
        digits
    } else {
        Seq::new((width - digits.len()) as nat, |i: int| '0') + digits
    }
}

fn push_zero_padded(out: &mut Vec<char>, n: u64, width: usize)
    ensures
        final(out)@ == old(out)@ + zero_padded(n as nat, width as nat),
{
    let mut digits: Vec<char> = Vec::new();
    push_digits(&mut digits, n);
    proof {
        assert(digits@ =~= decimal_digits(n as nat));
    }
    let ghost start = out@;
    if digits.len() < width {
        let zeros = width - digits.len();
        let mut k: usize = 0;
        while k < zeros
            invariant
                0 <= k <= zeros,
                out@ == start + Seq::new(k as nat, |i: int| '0'),
            decreases zeros - k,
        {
            out.push('0');
            k += 1;
            proof {
                assert(out@ =~= start + Seq::new(k as nat, |i: int| '0'));
            }
        }
    }
    let ghost middle = out@;
    let mut i: usize = 0;
    while i < digits.len()
        invariant
            0 <= i <= digits@.len(),
            out@ == middle + digits@.take(i as int),
        decreases digits@.len() - i,
    {
        proof {
            assert(digits@.take(i + 1) =~= digits@.take(i as int).push(digits@[i as int]));
        }
        out.push(digits[i]);
        i += 1;
    }
    proof {
        assert(digits@.take(digits@.len() as int) =~= digits@);
        assert(out@ =~= start + zero_padded(n as nat, width as nat));
    }
}

/// `[+SSSS.mmm] message`: a log line stamped with the time since the log was opened.
pub open spec fn spec_stamped_line(seconds: u64, millis: u32, message: Seq<char>) -> Seq<char> {
    "[+"@ + zero_padded(seconds as nat, 4) + "."@ + zero_padded(millis as nat, 3) + "] "@ + message
}

/// Stamps a log line with the seconds and milliseconds since the log was opened.
pub fn stamped_line(seconds: u64, millis: u32, message: &str) -> (line: String)
    ensures
        line@ == spec_stamped_line(seconds, millis, message@),
{
    let mut out: Vec<char> = Vec::new();
    push_text(&mut out, "[+");
    push_zero_padded(&mut out, seconds, 4);
    push_text(&mut out, ".");
    push_zero_padded(&mut out, millis as u64, 3);
    push_text(&mut out, "] ");
    push_text(&mut out, message);
    proof {
        assert(out@ =~= spec_stamped_line(seconds, millis, message@));
    }
    string_from_chars(&out)
}

/// The number of UTF-16 code units of a text: where the caret goes after it.
pub fn utf16_length(text: &str) -> (n: usize)
    ensures
        n == utf16_of(text@).len(),
{
    encode_utf16(text).len()
}

} // verus!
