//! Rendering a job description as one POSIX shell command line.
//!
//! The shape of the output is
//! `<tool> [-d|-P <dest>] [-n <n>|-#<n>] [-t|-J <title>] {-o key=value}* <path>`.
//! Destination, title and content path are escaped through
//! [`crate::escape::sh_escape`]; the `-o key=value` pairs are deliberately
//! passed through unescaped, which is part of the wire format: callers must
//! keep job option keys and values free of shell metacharacters.

use vstd::prelude::*;

use crate::content::BuildError;
use crate::content::DruckerContent;
use crate::escape::escape_spec;
use crate::escape::sh_escape;
use crate::options::DruckerOptions;

verus! {

/// The decimal digit character for one digit value.
pub open spec fn digit_char(d: nat) -> char {
    if d == 0 {
        '0'
    } else if d == 1 {
        '1'
    } else if d == 2 {
        '2'
    } else if d == 3 {
        '3'
    } else if d == 4 {
        '4'
    } else if d == 5 {
        '5'
    } else if d == 6 {
        '6'
    } else if d == 7 {
        '7'
    } else if d == 8 {
        '8'
    } else {
        '9'
    }
}

/// The decimal rendering of a number, most significant digit first.
pub open spec fn dec_spec(n: nat) -> Seq<char>
    decreases n,
{
    if n < 10 {
        seq![digit_char(n)]
    } else {
        dec_spec(n / 10) + seq![digit_char(n % 10)]
    }
}

/// The tool invoked: `lpr` when the flag is set, else `lp`.
pub open spec fn tool_spec(use_lpr: bool) -> Seq<char> {
    if use_lpr {
        "lpr"@
    } else {
        "lp"@
    }
}

/// The destination tokens, when a destination is present: the dialect's
/// flag followed by the escaped printer name.
pub open spec fn dest_part(o: DruckerOptions) -> Seq<char> {
    match o.destination {
        None => Seq::empty(),
        Some(d) => (if o.use_lpr {
            " -P "@
        } else {
            " -d "@
        }) + escape_spec(d@),
    }
}

/// The copies tokens: `lp` takes the count as a separate token after
/// `-n`, `lpr` concatenates it onto `-#` with no space between.
pub open spec fn copies_part(o: DruckerOptions) -> Seq<char> {
    match o.copies {
        None => Seq::empty(),
        Some(n) => (if o.use_lpr {
            " -#"@
        } else {
            " -n "@
        }) + dec_spec(n as nat),
    }
}

/// The title tokens, when a title is present: the dialect's flag followed
/// by the escaped title.
pub open spec fn title_part(o: DruckerOptions) -> Seq<char> {
    match o.title {
        None => Seq::empty(),
        Some(t) => (if o.use_lpr {
            " -J "@
        } else {
            " -t "@
        }) + escape_spec(t@),
    }
}

/// The ` -o key=value` tokens, in list order, unescaped by design.
pub open spec fn job_opts_part(s: Seq<(Seq<char>, Seq<char>)>) -> Seq<char>
    decreases s.len(),
{
    if s.len() == 0 {
        Seq::empty()
    } else {
        job_opts_part(s.drop_last()) + " -o "@ + s.last().0 + "="@ + s.last().1
    }
}

/// Everything before the content token.
pub open spec fn base_spec(o: DruckerOptions) -> Seq<char> {
    tool_spec(o.use_lpr) + dest_part(o) + copies_part(o) + title_part(o) + job_opts_part(
        o.job_opts(),
    )
}

/// The complete command line for a job whose content is the file at `path`.
pub open spec fn command_spec(o: DruckerOptions, path: Seq<char>) -> Seq<char> {
    base_spec(o) + " "@ + escape_spec(path)
}

/// The decimal digit for one digit value, as a one-character string.
fn digit_str(d: u32) -> (c: &'static str)
    requires
        d < 10,
    ensures
        c@ == seq![digit_char(d as nat)],
{
    proof {
        reveal_strlit("0");
        reveal_strlit("1");
        reveal_strlit("2");
        reveal_strlit("3");
        reveal_strlit("4");
        reveal_strlit("5");
        reveal_strlit("6");
        reveal_strlit("7");
        reveal_strlit("8");
        reveal_strlit("9");
    }
    if d == 0 {
        "0"
    } else if d == 1 {
        "1"
    } else if d == 2 {
        "2"
    } else if d == 3 {
        "3"
    } else if d == 4 {
        "4"
    } else if d == 5 {
        "5"
    } else if d == 6 {
        "6"
    } else if d == 7 {
        "7"
    } else if d == 8 {
        "8"
    } else {
        "9"
    }
}

/// Renders a count as decimal digits only.
fn u32_to_dec(n: u32) -> (r: String)
    ensures
        r@ == dec_spec(n as nat),
    decreases n,
{
    if n < 10 {
        let r = String::from_str(digit_str(n));
        proof {
            assert(r@ =~= dec_spec(n as nat));
        }
        r
    } else {
        let mut r = u32_to_dec(n / 10);
        r.append(digit_str(n % 10));
        proof {
            assert((n / 10) as nat == (n as nat) / 10);
            assert((n % 10) as nat == (n as nat) % 10);
            assert(r@ =~= dec_spec(n as nat));
        }
        r
    }
}

/// Build a full shell-safe command line string to submit the job.
///
/// `scratch_path` is the path of the scratch file into which the caller
/// materializes inline text; it is used only when `content` is `Text`.
/// A file reference with an empty path is rejected with
/// [`BuildError::EmptyPath`]; every other input yields a command line.
pub fn build_command(
    options: &DruckerOptions,
    content: &DruckerContent,
    scratch_path: &str,
) -> (r: Result<String, BuildError>)
    ensures
        r is Ok <==> !(content matches DruckerContent::File(p) && p@.len() == 0),
        content matches DruckerContent::File(p) ==> if p@.len() == 0 {
            r == Err::<String, BuildError>(BuildError::EmptyPath)
        } else {
            r matches Ok(c) && c@ == command_spec(*options, p@)
        },
        content is Text ==> (r matches Ok(c) && c@ == command_spec(*options, scratch_path@)),
{
    let ghost o = *options;
    let mut base: String = if options.use_lpr {
        String::from_str("lpr")
    } else {
        String::from_str("lp")
    };
    proof {
        assert(base@ =~= tool_spec(o.use_lpr));
    }

    match &options.destination {
        Some(dest) => {
            if options.use_lpr {
                base.append(" -P ");
            } else {
                base.append(" -d ");
            }
            let escaped = sh_escape(dest.as_str());
            base.append(escaped.as_str());
        },
        None => {},
    }
    proof {
        assert(base@ =~= tool_spec(o.use_lpr) + dest_part(o));
    }

    match options.copies {
        Some(n) => {
            if options.use_lpr {
                base.append(" -#");
            } else {
                base.append(" -n ");
            }
            let digits = u32_to_dec(n);
            base.append(digits.as_str());
        },
        None => {},
    }
    proof {
        assert(base@ =~= tool_spec(o.use_lpr) + dest_part(o) + copies_part(o));
    }

    match &options.title {
        Some(t) => {
            if options.use_lpr {
                base.append(" -J ");
            } else {
                base.append(" -t ");
            }
            let escaped = sh_escape(t.as_str());
            base.append(escaped.as_str());
        },
        None => {},
    }
    proof {
        assert(base@ =~= tool_spec(o.use_lpr) + dest_part(o) + copies_part(o) + title_part(o));
    }

    let n: usize = options.job_options.len();
    let mut i: usize = 0;
    proof {
        assert(o.job_opts().take(0) =~= Seq::<(Seq<char>, Seq<char>)>::empty());
    }
    while i < n
        invariant
            i <= n,
            o == *options,
            n == o.job_opts().len(),
            base@ == tool_spec(o.use_lpr) + dest_part(o) + copies_part(o) + title_part(o)
                + job_opts_part(o.job_opts().take(i as int)),
        decreases n - i,
    {
        base.append(" -o ");
        base.append(options.job_options[i].0.as_str());
        base.append("=");
        base.append(options.job_options[i].1.as_str());
        proof {
            reveal_strlit(" -o ");
            reveal_strlit("=");
            assert(o.job_opts().take(i + 1).drop_last() =~= o.job_opts().take(i as int));
            assert(o.job_opts().take(i + 1).last() == o.job_opts()[i as int]);
            assert(base@ =~= tool_spec(o.use_lpr) + dest_part(o) + copies_part(o) + title_part(o)
                + job_opts_part(o.job_opts().take(i + 1)));
        }
        i += 1;
    }
    proof {
        assert(o.job_opts().take(n as int) =~= o.job_opts());
        assert(base@ =~= base_spec(o));
    }

    match content {
        DruckerContent::File(p) => {
            if p.as_str().is_empty() {
                return Err(BuildError::EmptyPath);
            }
            let escaped = sh_escape(p.as_str());
            base.append(" ");
            base.append(escaped.as_str());
            proof {
                assert(base@ =~= command_spec(o, p@));
            }
            Ok(base)
        },
        DruckerContent::Text(_) => {
            let escaped = sh_escape(scratch_path);
            base.append(" ");
            base.append(escaped.as_str());
            proof {
                assert(base@ =~= command_spec(o, scratch_path@));
            }
            Ok(base)
        },
    }
}

} // verus!

