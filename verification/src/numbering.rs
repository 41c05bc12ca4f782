//! The line-numbering filter: a pass-through decorator over an output buffer
//! that inserts a rendered line number immediately before the first byte of
//! each line. A line that ends exactly on a newline gets no trailing number;
//! trailing unterminated content gets one for its final partial line.

use vstd::prelude::*;

use crate::format::format_line_number;
use crate::format::number_field;

verus! {

/// The ASCII newline byte.
pub const NEWLINE: u8 = 10;

/// How many line-number prefixes the filter emits while it consumes `s`,
/// starting at a line boundary iff `at_start`: one for each byte written at
/// the start of a line. Each emission increments the filter's counter by
/// exactly one, so this is also how far the counter advances.
pub open spec fn lines_started(at_start: bool, s: Seq<u8>) -> nat
    decreases s.len(),
{
    if s.len() == 0 {
        0
    } else {
        (if at_start {
            1nat
        } else {
            0nat
        }) + lines_started(s[0] == NEWLINE, s.drop_first())
    }
}

/// Whether the filter stands at a line boundary after consuming `s`, having
/// stood at one before iff `at_start`.
pub open spec fn at_line_start_after(at_start: bool, s: Seq<u8>) -> bool {
    if s.len() == 0 {
        at_start
    } else {
        s.last() == NEWLINE
    }
}

/// The bytes the filter hands to its inner buffer while consuming `s`, with
/// the line counter at `n` and at a line boundary iff `at_start`: each byte
/// written at the start of a line is preceded by the next line number's
/// rendered field.
pub open spec fn numbered_bytes(n: nat, at_start: bool, s: Seq<u8>) -> Seq<u8>
    decreases s.len(),
{
    if s.len() == 0 {
        Seq::empty()
    } else {
        (if at_start {
            number_field(n + 1)
        } else {
            Seq::empty()
        }) + seq![s[0]] + numbered_bytes(
            n + (if at_start {
                1nat
            } else {
                0nat
            }),
            s[0] == NEWLINE,
            s.drop_first(),
        )
    }
}

/// The number of newline bytes in `s`.
pub open spec fn newline_count(s: Seq<u8>) -> nat
    decreases s.len(),
{
    if s.len() == 0 {
        0
    } else {
        (if s[0] == NEWLINE {
            1nat
        } else {
            0nat
        }) + newline_count(s.drop_first())
    }
}

/// A prefix is emitted at most once per byte.
pub proof fn lemma_lines_started_le(at_start: bool, s: Seq<u8>)
    ensures
        lines_started(at_start, s) <= s.len(),
    decreases s.len(),
{
    if s.len() > 0 {
        lemma_lines_started_le(s[0] == NEWLINE, s.drop_first());
    }
}

/// Feeding `s` and then `t` through the filter is the same as feeding the
/// concatenation `s + t`: the counter, the boundary flag and the bytes
/// written all compose.
pub proof fn lemma_numbered_append(n: nat, at_start: bool, s: Seq<u8>, t: Seq<u8>)
    ensures
        lines_started(at_start, s + t) == lines_started(at_start, s) + lines_started(
            at_line_start_after(at_start, s),
            t,
        ),
        at_line_start_after(at_start, s + t) == at_line_start_after(
            at_line_start_after(at_start, s),
            t,
        ),
        numbered_bytes(n, at_start, s + t) == numbered_bytes(n, at_start, s) + numbered_bytes(
            n + lines_started(at_start, s),
            at_line_start_after(at_start, s),
            t,
        ),
    decreases s.len(),
{
    if s.len() == 0 {
        assert(s + t =~= t);
        assert(numbered_bytes(n, at_start, s) + numbered_bytes(n, at_start, t) =~= numbered_bytes(
            n,
            at_start,
            t,
        ));
    } else {
        let n1 = n + (if at_start {
            1nat
        } else {
            0nat
        });
        let b1 = s[0] == NEWLINE;
        assert((s + t).drop_first() =~= s.drop_first() + t);
        lemma_numbered_append(n1, b1, s.drop_first(), t);
        if t.len() == 0 {
            assert(s + t =~= s);
        }
        let head = (if at_start {
            number_field(n + 1)
        } else {
            Seq::<u8>::empty()
        }) + seq![s[0]];
        assert(head + (numbered_bytes(n1, b1, s.drop_first()) + numbered_bytes(
            n + lines_started(at_start, s),
            at_line_start_after(at_start, s),
            t,
        )) =~= (head + numbered_bytes(n1, b1, s.drop_first())) + numbered_bytes(
            n + lines_started(at_start, s),
            at_line_start_after(at_start, s),
            t,
        ));
    }
}

/// One byte through the filter: a prefix exactly when it starts a line, then
/// the byte itself.
pub proof fn lemma_numbered_one(n: nat, at_start: bool, x: u8)
    ensures
        lines_started(at_start, seq![x]) == (if at_start {
            1nat
        } else {
            0nat
        }),
        at_line_start_after(at_start, seq![x]) == (x == NEWLINE),
        numbered_bytes(n, at_start, seq![x]) == (if at_start {
            number_field(n + 1)
        } else {
            Seq::<u8>::empty()
        }) + seq![x],
{
    let s = seq![x];
    assert(s.drop_first() =~= Seq::<u8>::empty());
    let n1 = n + (if at_start {
        1nat
    } else {
        0nat
    });
    assert(lines_started(x == NEWLINE, Seq::<u8>::empty()) == 0);
    assert(numbered_bytes(n1, x == NEWLINE, Seq::<u8>::empty()) == Seq::<u8>::empty());
    let head = (if at_start {
        number_field(n + 1)
    } else {
        Seq::<u8>::empty()
    }) + seq![x];
    assert(head + Seq::<u8>::empty() =~= head);
}

proof fn lemma_prefix_count_general(at_start: bool, s: Seq<u8>)
    ensures
        s.len() > 0 ==> lines_started(at_start, s) + (if s.last() == NEWLINE {
            1int
        } else {
            0int
        }) == (if at_start {
            1int
        } else {
            0int
        }) + newline_count(s),
    decreases s.len(),
{
    if s.len() > 0 {
        lemma_prefix_count_general(s[0] == NEWLINE, s.drop_first());
        if s.len() == 1 {
            assert(s.drop_first() =~= Seq::<u8>::empty());
        } else {
            assert(s.drop_first().last() == s.last());
        }
    }
}

/// The count of emitted line-number prefixes over a whole stream, started at
/// a line boundary, equals the number of newline bytes in the stream, plus
/// one more when the stream is non-empty and does not end with a newline.
pub proof fn lemma_prefix_count(s: Seq<u8>)
    ensures
        lines_started(true, s) == newline_count(s) + (if s.len() > 0 && s.last() != NEWLINE {
            1int
        } else {
            0int
        }),
{
    lemma_prefix_count_general(true, s);
}

/// Writes its input to an inner byte buffer, prefixed by line numbers
/// starting with 1. A number is printed only when there are more bytes to
/// print after it, so input that ends in a newline gets no additional number
/// after its last line. A caller drains `output` to the real output stream;
/// draining stands for flushing the buffered inner sink.
pub struct NumberedOut {
    pub n: u64,
    pub beginning_line: bool,
    pub output: Vec<u8>,
}

impl NumberedOut {
    /// A fresh filter: counter at zero, at the start of a line, nothing
    /// buffered.
    pub fn new() -> (r: NumberedOut)
        ensures
            r.n == 0,
            r.beginning_line,
            r.output@ == Seq::<u8>::empty(),
    {
        NumberedOut { n: 0, beginning_line: true, output: Vec::new() }
    }

    /// Advances the line counter and writes its rendered field; printing the
    /// number leaves the filter at the start of the line it numbers.
    pub fn print_number(&mut self)
        requires
            old(self).n < u64::MAX,
        ensures
            final(self).n == old(self).n + 1,
            final(self).beginning_line,
            final(self).output@ == old(self).output@ + number_field((old(self).n + 1) as nat),
    {
        self.n = self.n + 1;
        self.beginning_line = true;
        let mut field = format_line_number(self.n);
        self.output.append(&mut field);
    }

    /// Copies `buf` into the inner buffer byte by byte, numbering each line
    /// at its first byte, and reports how many bytes of `buf` it consumed:
    /// all of them.
    pub fn write(&mut self, buf: &[u8]) -> (r: usize)
        requires
            old(self).n + buf@.len() <= u64::MAX,
        ensures
            r == buf@.len(),
            final(self).n == old(self).n + lines_started(old(self).beginning_line, buf@),
            final(self).beginning_line == at_line_start_after(
                old(self).beginning_line,
                buf@,
            ),
            final(self).output@ == old(self).output@ + numbered_bytes(
                old(self).n as nat,
                old(self).beginning_line,
                buf@,
            ),
    {
        let ghost n0 = old(self).n as nat;
        let ghost b0 = old(self).beginning_line;
        let mut i: usize = 0;
        while i < buf.len()
            invariant
                i <= buf@.len(),
                self.n == n0 + lines_started(b0, buf@.take(i as int)),
                self.beginning_line == at_line_start_after(b0, buf@.take(i as int)),
                self.output@ == old(self).output@ + numbered_bytes(n0, b0, buf@.take(i as int)),
            decreases buf@.len() - i,
        {
            proof {
                lemma_lines_started_le(b0, buf@.take(i as int));
            }
            let byte = buf[i];
            let ghost pre_n = self.n as nat;
            let ghost pre_b = self.beginning_line;
            if self.beginning_line {
                self.print_number();
            }
            if byte == NEWLINE {
                self.beginning_line = true;
            } else {
                self.beginning_line = false;
            }
            self.output.push(byte);
            proof {
                assert(buf@.take(i + 1) =~= buf@.take(i as int) + seq![buf@[i as int]]);
                lemma_numbered_one(pre_n, pre_b, byte);
                lemma_numbered_append(n0, b0, buf@.take(i as int), seq![buf@[i as int]]);
                assert(self.output@ =~= old(self).output@ + numbered_bytes(
                    n0,
                    b0,
                    buf@.take(i + 1),
                ));
            }
            i = i + 1;
        }
        proof {
            assert(buf@.take(buf@.len() as int) =~= buf@);
        }
        buf.len()
    }

    /// Hands the buffered bytes out and empties the buffer, leaving the
    /// counter and the boundary flag untouched.
    pub fn take_output(&mut self) -> (r: Vec<u8>)
        ensures
            r@ == old(self).output@,
            final(self).output@ == Seq::<u8>::empty(),
            final(self).n == old(self).n,
            final(self).beginning_line == old(self).beginning_line,
    {
        let r = self.output.split_off(0);
        proof {
            assert(r@ =~= old(self).output@);
            assert(self.output@ =~= Seq::<u8>::empty());
        }
        r
    }
}

} // verus!
