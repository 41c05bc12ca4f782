//! The copy engine: given, for each file in order, the bytes that could be
//! read from it and the failure that ended the attempt (if one did), it
//! delivers every file's bytes to the output sink in list order, never stops
//! early on a per-file failure, reports each failure as a filename-qualified
//! message, and reports failure overall iff some file failed.

use vstd::prelude::*;
use vstd::string::StringExecFns;

use crate::numbering::NEWLINE;
use crate::numbering::lines_started;
use crate::numbering::newline_count;
use crate::numbering::numbered_bytes;
use crate::sink::Sink;
use crate::sink::lemma_sink_advanced_trans;
use crate::sink::sink_advanced;
use crate::sink::sink_contents;
use crate::sink::sink_fresh;
use crate::sink::sink_room;

verus! {

/// What one attempt to read a file yielded: the file's name, the bytes that
/// were read (and must still be delivered), and, if the attempt ended in a
/// failure — an open failure yields no bytes, a read failure may follow some
/// — the underlying failure's description.
pub struct FileReport {
    pub name: String,
    pub data: Vec<u8>,
    pub error: Option<String>,
}

/// A file-scoped error: the file's name and a human-readable message,
/// constructed where a read or open operation fails and consumed by the
/// error-reporting path.
pub struct CatError {
    pub filename: String,
    pub message: String,
}

impl CatError {
    /// The error as one line of text: the file name, a colon and a space,
    /// and the underlying message.
    pub fn display(&self) -> (r: String)
        ensures
            r@ == self.filename@ + ": "@ + self.message@,
    {
        let r = self.filename.clone().concat(": ").concat(self.message.as_str());
        proof {
            assert(r@ =~= self.filename@ + ": "@ + self.message@);
        }
        r
    }
}

/// The concatenation of the files' bytes, in list order.
pub open spec fn concat_data(reports: Seq<FileReport>) -> Seq<u8>
    decreases reports.len(),
{
    if reports.len() == 0 {
        Seq::empty()
    } else {
        concat_data(reports.drop_last()) + reports.last().data@
    }
}

/// The error lines the engine reports, one per failed file, in list order.
pub open spec fn error_lines(reports: Seq<FileReport>) -> Seq<Seq<char>>
    decreases reports.len(),
{
    if reports.len() == 0 {
        Seq::empty()
    } else {
        error_lines(reports.drop_last()) + (match reports.last().error {
            Some(m) => seq![reports.last().name@ + ": "@ + m@],
            None => Seq::<Seq<char>>::empty(),
        })
    }
}

/// Whether some file failed.
pub open spec fn has_error(reports: Seq<FileReport>) -> bool {
    exists|i: int| 0 <= i < reports.len() && (#[trigger] reports[i]).error is Some
}

/// The bytes a run delivers: the concatenation of the files' bytes, passed
/// through the line-numbering transformation when numbering is on.
pub open spec fn run_output(reports: Seq<FileReport>, numbered: bool) -> Seq<u8> {
    if numbered {
        numbered_bytes(0, true, concat_data(reports))
    } else {
        concat_data(reports)
    }
}

/// No prefix of the files' bytes is longer than the whole.
pub proof fn lemma_concat_data_prefix_le(reports: Seq<FileReport>, i: int)
    requires
        0 <= i <= reports.len(),
    ensures
        concat_data(reports.take(i)).len() <= concat_data(reports).len(),
    decreases reports.len() - i,
{
    if i < reports.len() {
        assert(reports.take(i + 1).drop_last() =~= reports.take(i));
        lemma_concat_data_prefix_le(reports, i + 1);
    } else {
        assert(reports.take(i) =~= reports);
    }
}

/// What the engine reports besides the bytes it delivers: the error lines
/// and the overall status, 0 for success and 1 when some file failed.
pub struct RunReport {
    pub errors: Vec<String>,
    pub status: i32,
}

/// Delivers every file's bytes to `output`, in list order, never stopping
/// early: a failed file contributes the bytes read before its failure, one
/// filename-qualified error line, and an overall status of 1; with no
/// failures the status is 0. The sink ends up having accepted exactly the
/// concatenation of the files' bytes.
pub fn process_files(reports: &Vec<FileReport>, output: &mut Sink) -> (r: RunReport)
    requires
        concat_data(reports@).len() <= sink_room(*old(output)),
    ensures
        sink_advanced(*old(output), *final(output), concat_data(reports@)),
        r.status == (if has_error(reports@) {
            1int
        } else {
            0int
        }),
        r.errors@.len() == error_lines(reports@).len(),
        forall|k: int|
            0 <= k < r.errors@.len() ==> (#[trigger] r.errors@[k])@ == error_lines(reports@)[k],
{
    let ghost out0 = *output;
    let mut errors: Vec<String> = Vec::new();
    let mut status: i32 = 0;
    let mut i: usize = 0;
    proof {
        assert(reports@.take(0) =~= Seq::<FileReport>::empty());
        assert(sink_advanced(out0, *output, concat_data(reports@.take(0))));
    }
    while i < reports.len()
        invariant
            i <= reports@.len(),
            sink_advanced(out0, *output, concat_data(reports@.take(i as int))),
            status == (if has_error(reports@.take(i as int)) {
                1int
            } else {
                0int
            }),
            errors@.len() == error_lines(reports@.take(i as int)).len(),
            forall|k: int|
                0 <= k < errors@.len() ==> (#[trigger] errors@[k])@ == error_lines(
                    reports@.take(i as int),
                )[k],
        decreases reports@.len() - i,
    {
        let ghost prefix = reports@.take(i as int);
        proof {
            assert(reports@.take(i + 1).drop_last() =~= prefix);
            assert(reports@.take(i + 1).last() == reports@[i as int]);
            lemma_concat_data_prefix_le(reports@, i + 1);
        }
        let rep = &reports[i];
        let dlen: usize = rep.data.len();
        let ghost mid = *output;
        proof {
            assert(rep.data@.len() == dlen as int);
            if out0 is Numbered {
                crate::numbering::lemma_lines_started_le(
                    out0->Numbered_0.beginning_line,
                    concat_data(prefix),
                );
            }
        }
        output.write(rep.data.as_slice());
        proof {
            lemma_sink_advanced_trans(out0, mid, *output, concat_data(prefix), rep.data@);
            assert(concat_data(reports@.take(i + 1)) =~= concat_data(prefix) + rep.data@);
        }
        match &rep.error {
            Some(msg) => {
                let e = CatError { filename: rep.name.clone(), message: msg.clone() };
                errors.push(e.display());
                status = 1;
                proof {
                    assert(error_lines(reports@.take(i + 1)) =~= error_lines(prefix) + seq![
                        reports@[i as int].name@ + ": "@ + reports@[i as int].error->0@,
                    ]);
                    assert(reports@.take(i + 1)[i as int].error is Some);
                    assert(has_error(reports@.take(i + 1)));
                }
            },
            None => {
                proof {
                    assert(error_lines(reports@.take(i + 1)) =~= error_lines(prefix));
                    if has_error(reports@.take(i + 1)) != has_error(prefix) {
                        let w = choose|k: int|
                            0 <= k < reports@.take(i + 1).len() && (#[trigger] reports@.take(
                                i + 1,
                            )[k]).error is Some;
                        assert(prefix[w] == reports@.take(i + 1)[w]);
                        assert(has_error(prefix));
                    }
                }
            },
        }
        i = i + 1;
    }
    proof {
        assert(reports@.take(reports@.len() as int) =~= reports@);
    }
    RunReport { errors, status }
}

/// With a plain sink that starts empty, the bytes delivered for a run are
/// exactly the concatenation of the files' bytes, in argument order.
pub proof fn lemma_plain_output_is_concatenation(pre: Sink, post: Sink, reports: Seq<FileReport>)
    requires
        sink_fresh(pre, false),
        sink_advanced(pre, post, concat_data(reports)),
    ensures
        sink_contents(post) == run_output(reports, false),
{
    assert(sink_contents(post) =~= concat_data(reports));
}

/// With a fresh numbering sink, the bytes delivered for a run are exactly
/// the numbered transformation of the concatenation, and the filter's final
/// counter — the count of line-number prefixes it emitted — equals the
/// number of newlines in the concatenated input, plus one more when that
/// input is non-empty and does not end with a newline.
pub proof fn lemma_numbered_output_of_run(pre: Sink, post: Sink, reports: Seq<FileReport>)
    requires
        sink_fresh(pre, true),
        sink_advanced(pre, post, concat_data(reports)),
    ensures
        sink_contents(post) == run_output(reports, true),
        post matches Sink::Numbered(g) && g.n == newline_count(concat_data(reports)) + (if
        concat_data(reports).len() > 0 && concat_data(reports).last() != NEWLINE {
            1int
        } else {
            0int
        }),
{
    crate::numbering::lemma_prefix_count(concat_data(reports));
    assert(sink_contents(post) =~= numbered_bytes(0, true, concat_data(reports)));
}

/// Running the engine twice over the same reports, with sinks in the same
/// starting state, delivers byte-identical output: what a run delivers is a
/// function of its inputs alone.
pub proof fn lemma_runs_identical(
    pre1: Sink,
    post1: Sink,
    pre2: Sink,
    post2: Sink,
    reports: Seq<FileReport>,
)
    requires
        pre1 == pre2,
        sink_advanced(pre1, post1, concat_data(reports)),
        sink_advanced(pre2, post2, concat_data(reports)),
    ensures
        sink_contents(post1) == sink_contents(post2),
{
}

} // verus!
