//! The argument interpreter: turns the command-line tokens (excluding the
//! program name) into a configuration — an ordered file list and an output
//! sink — or into a descriptive error message. A flag-like token is one of
//! length at least two whose first character is a dash; all other tokens are
//! file names, kept in their original relative order. `-n` turns line
//! numbering on, `-h` yields the usage message, any other flag-like token is
//! unrecognized; an empty file list defaults to `-`, which names standard
//! input.

use vstd::prelude::*;
use vstd::string::StrSliceExecFns;
use vstd::string::StringExecFns;

use crate::sink::Sink;
use crate::sink::sink_fresh;

verus! {

/// A configuration: the files to copy, in order, and the sink to copy them
/// into. Built once and consumed by the copy loop.
pub struct Config {
    pub files: Vec<String>,
    pub output: Sink,
}

/// A flag-like token: length at least two, first character a dash.
pub open spec fn spec_is_flag(a: Seq<char>) -> bool {
    a.len() >= 2 && a[0] == '-'
}

/// A token that stops argument parsing: flag-like and not `-n`.
pub open spec fn stops_parse(a: Seq<char>) -> bool {
    spec_is_flag(a) && a != "-n"@
}

/// The first token that stops parsing stands at `i`.
pub open spec fn first_stop_at(args: Seq<String>, i: int) -> bool {
    &&& 0 <= i < args.len()
    &&& stops_parse(args[i]@)
    &&& forall|j: int| 0 <= j < i ==> !stops_parse(#[trigger] args[j]@)
}

/// Some token asks for line numbers.
pub open spec fn wants_numbers(args: Seq<String>) -> bool {
    exists|i: int| 0 <= i < args.len() && (#[trigger] args[i])@ == "-n"@
}

/// The non-flag tokens, in their original relative order.
pub open spec fn file_names(args: Seq<String>) -> Seq<Seq<char>>
    decreases args.len(),
{
    if args.len() == 0 {
        Seq::empty()
    } else {
        file_names(args.drop_last()) + (if spec_is_flag(args.last()@) {
            Seq::<Seq<char>>::empty()
        } else {
            seq![args.last()@]
        })
    }
}

/// The usage message for the program named `prog`.
pub open spec fn usage_message(prog: Seq<char>) -> Seq<char> {
    "Usage: "@ + prog + " [-n] [file1 [file2 ...]]"@
}

/// The message for an unrecognized flag-like token.
pub open spec fn unrecognized_message(flag: Seq<char>) -> Seq<char> {
    "Unrecognized flag "@ + flag
}

/// Whether `a` is a flag-like token.
fn is_flag(a: &String) -> (r: bool)
    ensures
        r == spec_is_flag(a@),
{
    a.as_str().unicode_len() >= 2 && a.as_str().get_char(0) == '-'
}

/// Whether `a` reads as the literal `b`.
fn str_eq_lit(a: &String, b: &str) -> (r: bool)
    ensures
        r == (a@ == b@),
{
    let bs: String = b.to_owned();
    a.eq(&bs)
}

/// Interprets the command-line tokens `args` (the program name `prog` is
/// given separately and only used in the usage message). On success the
/// configuration holds the non-flag tokens as the file list — or a single
/// `-` when there are none — and a sink that numbers lines iff some token is
/// `-n`. The first flag-like token that is not `-n` stops parsing: `-h`
/// yields the usage message, anything else the unrecognized-flag message
/// naming the token; no copying is configured on that path.
pub fn process_args(prog: &str, args: &Vec<String>) -> (r: Result<Config, String>)
    ensures
        (r is Err) <==> exists|i: int|
            0 <= i < args@.len() && stops_parse((#[trigger] args@[i])@),
        forall|i: int|
            first_stop_at(args@, i) && args@[i]@ == "-h"@ ==> (r matches Err(m) && m@
                == usage_message(prog@)),
        forall|i: int|
            first_stop_at(args@, i) && args@[i]@ != "-h"@ ==> (r matches Err(m) && m@
                == unrecognized_message(args@[i]@)),
        r matches Ok(c) ==> {
            &&& sink_fresh(c.output, wants_numbers(args@))
            &&& c.files@.len() == (if file_names(args@).len() == 0 {
                1int
            } else {
                file_names(args@).len() as int
            })
            &&& (file_names(args@).len() == 0 ==> c.files@[0]@ == "-"@)
            &&& forall|k: int|
                0 <= k < file_names(args@).len() ==> (#[trigger] c.files@[k])@ == file_names(
                    args@,
                )[k]
        },
{
    let mut numbered: bool = false;
    let mut files: Vec<String> = Vec::new();
    let mut i: usize = 0;
    while i < args.len()
        invariant
            i <= args@.len(),
            forall|j: int| 0 <= j < i ==> !stops_parse((#[trigger] args@[j])@),
            numbered == wants_numbers(args@.take(i as int)),
            files@.len() == file_names(args@.take(i as int)).len(),
            forall|k: int|
                0 <= k < files@.len() ==> (#[trigger] files@[k])@ == file_names(
                    args@.take(i as int),
                )[k],
        decreases args@.len() - i,
    {
        let a = &args[i];
        let ghost prefix = args@.take(i as int);
        assert(args@.take(i + 1).drop_last() =~= prefix);
        assert(args@.take(i + 1).last() == args@[i as int]);
        if is_flag(a) {
            if str_eq_lit(a, "-n") {
                numbered = true;
                proof {
                    assert(wants_numbers(args@.take(i + 1)));
                }
            } else if str_eq_lit(a, "-h") {
                let m = "Usage: ".to_owned().concat(prog).concat(" [-n] [file1 [file2 ...]]");
                proof {
                    reveal_strlit("-n");
                    reveal_strlit("-h");
                    assert(stops_parse(a@));
                    assert forall|i2: int| first_stop_at(args@, i2) implies i2 == i as int by {
                        assert(!(i2 < i)) by {
                            if i2 < i {
                                assert(!stops_parse(args@[i2]@));
                            }
                        }
                        assert(!(i2 > i)) by {
                            if i2 > i {
                                assert(!stops_parse(args@[i as int]@));
                            }
                        }
                    }
                    assert(m@ =~= usage_message(prog@));
                }
                return Err(m);
            } else {
                let m = "Unrecognized flag ".to_owned().concat(a.as_str());
                proof {
                    assert(stops_parse(a@));
                    assert forall|i2: int| first_stop_at(args@, i2) implies i2 == i as int by {
                        assert(!(i2 < i)) by {
                            if i2 < i {
                                assert(!stops_parse(args@[i2]@));
                            }
                        }
                        assert(!(i2 > i)) by {
                            if i2 > i {
                                assert(!stops_parse(args@[i as int]@));
                            }
                        }
                    }
                    reveal_strlit("-h");
                    reveal_strlit("-n");
                    assert(a@ != "-h"@) by {
                        assert("-h"@.len() == 2 && "-h"@[1] == 'h');
                        assert("-n"@.len() == 2 && "-n"@[1] == 'n');
                    }
                    assert(m@ =~= unrecognized_message(a@));
                }
                return Err(m);
            }
        } else {
            files.push(a.clone());
            proof {
                assert(file_names(args@.take(i + 1)) =~= file_names(prefix) + seq![
                    args@[i as int]@,
                ]);
            }
        }
        proof {
            reveal_strlit("-n");
            let s0 = args@.take(i as int);
            let s1 = args@.take(i + 1);
            assert(forall|k: int| 0 <= k < i ==> s1[k] == s0[k]);
            if args@[i as int]@ == "-n"@ {
                assert(spec_is_flag(args@[i as int]@));
                assert(s1[i as int]@ == "-n"@);
                assert(wants_numbers(s1));
            } else {
                if wants_numbers(s1) {
                    let w = choose|k: int| 0 <= k < s1.len() && (#[trigger] s1[k])@ == "-n"@;
                    assert(s0[w] == s1[w]);
                    assert(wants_numbers(s0));
                }
                if wants_numbers(s0) {
                    let w = choose|k: int| 0 <= k < s0.len() && (#[trigger] s0[k])@ == "-n"@;
                    assert(s1[w] == s0[w]);
                    assert(wants_numbers(s1));
                }
            }
            if spec_is_flag(args@[i as int]@) {
                assert(file_names(args@.take(i + 1)) =~= file_names(prefix));
            }
        }
        i = i + 1;
    }
    proof {
        assert(args@.take(args@.len() as int) =~= args@);
    }
    if files.len() == 0 {
        let dash: String = "-".to_owned();
        files.push(dash);
    }
    let output = Sink::new(numbered);
    Ok(Config { files, output })
}

} // verus!
