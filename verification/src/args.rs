//! Command-line pre-processing: rewrite the historical `-exec` spelling to
//! `--exec` everywhere it introduces a command template, while leaving the
//! arguments of the template itself untouched (a template runs until the `;`
//! terminator).

use vstd::prelude::*;

verus! {

/// What one pass over the arguments produces, starting with `in_exec` telling
/// whether we are currently inside a command template's argument list.
///
/// Outside a template, `-exec` is rewritten to `--exec` and opens a template,
/// as `--exec` and `-x` do unchanged; inside one, every argument passes
/// through unchanged and `;` closes the template.
pub open spec fn scan_from(args: Seq<Seq<char>>, in_exec: bool) -> Seq<Seq<char>>
    decreases args.len(),
{
    if args.len() == 0 {
        Seq::empty()
    } else {
        let arg = args[0];
        let rest = args.drop_first();
        if in_exec {
            seq![arg] + scan_from(rest, arg != ";"@)
        } else if arg == "-exec"@ {
            seq!["--exec"@] + scan_from(rest, true)
        } else {
            seq![arg] + scan_from(rest, arg == "--exec"@ || arg == "-x"@)
        }
    }
}

/// Scanner state while walking the argument list once, front to back.
pub struct ArgScanner {
    pub in_exec: bool,
    pub transformed_args: Vec<String>,
}

impl ArgScanner {
    /// A scanner that has seen nothing: outside any template, no output yet.
    pub fn default() -> (r: ArgScanner)
        ensures
            !r.in_exec,
            r.transformed_args.deep_view() == Seq::<Seq<char>>::empty(),
    {
        let r = ArgScanner { in_exec: false, transformed_args: vec![] };
        proof {
            assert(r.transformed_args.deep_view() =~= Seq::<Seq<char>>::empty());
        }
        r
    }

    /// Walk the arguments once and return what was already accumulated,
    /// followed by the arguments with every `-exec` that opens a command
    /// template rewritten to `--exec` — scanning from whatever state the
    /// scanner was in.
    pub fn process_args(self, args: Vec<String>) -> (r: Vec<String>)
        ensures
            r.deep_view() == self.transformed_args.deep_view() + scan_from(
                args.deep_view(),
                self.in_exec,
            ),
    {
        let ghost acc0 = self.transformed_args.deep_view();
        let ghost b0 = self.in_exec;
        let mut scanner = self;
        let target: String = "-exec".to_owned();
        let long_start: String = "--exec".to_owned();
        let short_start: String = "-x".to_owned();
        let exec_end: String = ";".to_owned();
        let replacement: String = "--exec".to_owned();

        let ghost all: Seq<Seq<char>> = args.deep_view();
        proof {
            assert(all.skip(0) =~= all);
        }
        let n = args.len();
        let mut i: usize = 0;
        while i < n
            invariant
                n == args.len(),
                all == args.deep_view(),
                i <= n,
                target@ == "-exec"@,
                long_start@ == "--exec"@,
                short_start@ == "-x"@,
                exec_end@ == ";"@,
                replacement@ == "--exec"@,
                acc0 + scan_from(all, b0) == scanner.transformed_args.deep_view() + scan_from(
                    all.skip(i as int),
                    scanner.in_exec,
                ),
            decreases n - i,
        {
            let ghost pending = all.skip(i as int);
            let ghost bi = scanner.in_exec;
            let arg = &args[i];
            proof {
                assert(pending.len() == n - i);
                assert(pending[0] == all[i as int]);
                assert(pending[0] == arg@);
                assert(pending.drop_first() =~= all.skip(i as int + 1));
            }
            let ghost before = scanner.transformed_args.deep_view();
            if scanner.in_exec {
                scanner.transformed_args.push(arg.clone());
                if *arg == exec_end {
                    scanner.in_exec = false;
                }
                proof {
                    assert(scanner.transformed_args.deep_view() =~= before + seq![arg@]);
                    assert(scan_from(pending, bi) == seq![arg@] + scan_from(
                        all.skip(i as int + 1),
                        scanner.in_exec,
                    ));
                }
            } else if *arg == target {
                scanner.transformed_args.push(replacement.clone());
                scanner.in_exec = true;
                proof {
                    assert(scanner.transformed_args.deep_view() =~= before + seq!["--exec"@]);
                    assert(scan_from(pending, bi) == seq!["--exec"@] + scan_from(
                        all.skip(i as int + 1),
                        scanner.in_exec,
                    ));
                }
            } else {
                scanner.transformed_args.push(arg.clone());
                if *arg == long_start || *arg == short_start {
                    scanner.in_exec = true;
                }
                proof {
                    assert(scanner.transformed_args.deep_view() =~= before + seq![arg@]);
                    assert(scan_from(pending, bi) == seq![arg@] + scan_from(
                        all.skip(i as int + 1),
                        scanner.in_exec,
                    ));
                }
            }
            proof {
                assert(acc0 + scan_from(all, b0) =~= scanner.transformed_args.deep_view()
                    + scan_from(all.skip(i as int + 1), scanner.in_exec));
            }
            i = i + 1;
        }
        proof {
            assert(all.skip(n as int) =~= Seq::<Seq<char>>::empty());
            assert(scanner.transformed_args.deep_view() + Seq::<Seq<char>>::empty()
                =~= scanner.transformed_args.deep_view());
        }
        scanner.transformed_args
    }
}

/// Rewrite an argument list so that every `-exec` that opens a command
/// template reads `--exec`, leaving template arguments untouched.
pub fn transform_args_with_exec(original: Vec<String>) -> (r: Vec<String>)
    ensures
        r.deep_view() == scan_from(original.deep_view(), false),
{
    let ghost all = original.deep_view();
    let r = ArgScanner::default().process_args(original);
    proof {
        assert(Seq::<Seq<char>>::empty() + scan_from(all, false) =~= scan_from(all, false));
    }
    r
}

} // verus!
