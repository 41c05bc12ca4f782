//! The output sink: an abstraction that accepts a stream of bytes and can be
//! drained. It has two variants, selected once at startup — a plain byte
//! buffer, or the line-numbering filter wrapping one. A caller drains the
//! sink and writes what it gets to the real output stream; draining stands
//! for flushing.

use vstd::prelude::*;

use crate::numbering::NumberedOut;
use crate::numbering::at_line_start_after;
use crate::numbering::lines_started;
use crate::numbering::numbered_bytes;

verus! {

/// An output sink: either a plain buffer or the line-numbering filter.
pub enum Sink {
    Plain(Vec<u8>),
    Numbered(NumberedOut),
}

/// The bytes a sink has accumulated and not yet handed out.
pub open spec fn sink_contents(s: Sink) -> Seq<u8> {
    match s {
        Sink::Plain(v) => v@,
        Sink::Numbered(f) => f.output@,
    }
}

/// What a sink makes of incoming bytes: a plain sink passes them through, a
/// numbering sink inserts a line-number field before the first byte of each
/// line.
pub open spec fn sink_transform(s: Sink, data: Seq<u8>) -> Seq<u8> {
    match s {
        Sink::Plain(_) => data,
        Sink::Numbered(f) => numbered_bytes(f.n as nat, f.beginning_line, data),
    }
}

/// How many more line-number prefixes a sink can emit before its counter
/// would overflow; a plain sink numbers nothing, so any write of machine size
/// fits under this bound.
pub open spec fn sink_room(s: Sink) -> int {
    match s {
        Sink::Plain(_) => u64::MAX as int,
        Sink::Numbered(f) => u64::MAX - f.n,
    }
}

/// A sink that was just built for the `numbered` choice: the matching
/// variant, holding nothing, with the filter's counter at zero and at a line
/// boundary.
pub open spec fn sink_fresh(s: Sink, numbered: bool) -> bool {
    match s {
        Sink::Plain(v) => !numbered && v@ == Seq::<u8>::empty(),
        Sink::Numbered(f) => numbered && f.n == 0 && f.beginning_line && f.output@ == Seq::<
            u8,
        >::empty(),
    }
}

/// `post` is `pre` after accepting exactly the bytes `data`: the same
/// variant, the transformed bytes appended, and for the numbering filter the
/// counter and boundary flag advanced accordingly.
pub open spec fn sink_advanced(pre: Sink, post: Sink, data: Seq<u8>) -> bool {
    match pre {
        Sink::Plain(v) => post matches Sink::Plain(w) && w@ == v@ + data,
        Sink::Numbered(f) => post matches Sink::Numbered(g) && g.output@ == f.output@
            + numbered_bytes(f.n as nat, f.beginning_line, data) && g.n == f.n + lines_started(
            f.beginning_line,
            data,
        ) && g.beginning_line == at_line_start_after(f.beginning_line, data),
    }
}

/// `post` is `pre` drained: nothing accumulated, everything else untouched.
pub open spec fn sink_drained(pre: Sink, post: Sink) -> bool {
    match pre {
        Sink::Plain(_) => post matches Sink::Plain(w) && w@ == Seq::<u8>::empty(),
        Sink::Numbered(f) => post matches Sink::Numbered(g) && g.output@ == Seq::<u8>::empty()
            && g.n == f.n && g.beginning_line == f.beginning_line,
    }
}

/// Accepting `s` and then `t` is accepting `s + t`.
pub proof fn lemma_sink_advanced_trans(a: Sink, b: Sink, c: Sink, s: Seq<u8>, t: Seq<u8>)
    requires
        sink_advanced(a, b, s),
        sink_advanced(b, c, t),
    ensures
        sink_advanced(a, c, s + t),
{
    match a {
        Sink::Plain(v) => {
            assert(sink_contents(c) =~= v@ + (s + t));
        },
        Sink::Numbered(f) => {
            crate::numbering::lemma_numbered_append(f.n as nat, f.beginning_line, s, t);
            assert(sink_contents(c) =~= f.output@ + numbered_bytes(
                f.n as nat,
                f.beginning_line,
                s + t,
            ));
        },
    }
}

impl Sink {
    /// Selects and constructs the output sink once: the numbering filter over
    /// a fresh buffer when line numbers are wanted, a plain fresh buffer
    /// otherwise.
    pub fn new(numbered: bool) -> (r: Sink)
        ensures
            sink_fresh(r, numbered),
    {
        if numbered {
            Sink::Numbered(NumberedOut::new())
        } else {
            Sink::Plain(Vec::new())
        }
    }

    /// How many more line-number prefixes this sink accepts before its
    /// counter would overflow.
    pub fn room(&self) -> (r: u64)
        ensures
            r as int == sink_room(*self),
    {
        match self {
            Sink::Plain(_) => u64::MAX,
            Sink::Numbered(f) => u64::MAX - f.n,
        }
    }

    /// Accepts `buf`: appends it, transformed, to what the sink holds.
    pub fn write(&mut self, buf: &[u8])
        requires
            buf@.len() <= sink_room(*old(self)),
        ensures
            sink_advanced(*old(self), *final(self), buf@),
    {
        match self {
            Sink::Plain(v) => {
                let mut i: usize = 0;
                while i < buf.len()
                    invariant
                        i <= buf@.len(),
                        v@ == old(self)->Plain_0@ + buf@.take(i as int),
                    decreases buf@.len() - i,
                {
                    v.push(buf[i]);
                    i = i + 1;
                    assert(v@ =~= old(self)->Plain_0@ + buf@.take(i as int));
                }
                proof {
                    assert(buf@.take(buf@.len() as int) =~= buf@);
                }
            },
            Sink::Numbered(f) => {
                f.write(buf);
            },
        }
    }

    /// Hands out everything the sink holds and leaves it empty; the
    /// numbering filter keeps its counter and boundary flag.
    pub fn take_output(&mut self) -> (r: Vec<u8>)
        ensures
            r@ == sink_contents(*old(self)),
            sink_drained(*old(self), *final(self)),
    {
        match self {
            Sink::Plain(v) => {
                let r = v.split_off(0);
                proof {
                    assert(r@ =~= old(self)->Plain_0@);
                    assert(v@ =~= Seq::<u8>::empty());
                }
                r
            },
            Sink::Numbered(f) => f.take_output(),
        }
    }
}

} // verus!
