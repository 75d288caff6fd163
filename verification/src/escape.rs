//! POSIX single-quote escaping of arbitrary strings.
//!
//! `sh_escape` wraps its input in single quotes and replaces every embedded
//! single quote with the five-character sequence `'"'"'` (close the quoted
//! segment, emit a literal quote inside a double-quoted segment, reopen
//! single quoting).  The empty string becomes the two-character literal `''`.
//!
//! The module also carries a specification-level model of how a POSIX shell
//! splits a quoted token back into a word (`sh_dequote`), and the proof that
//! dequoting an escaped string always returns the original string.

use vstd::prelude::*;

verus! {

/// What one input character contributes to the escaped output.
pub open spec fn escape_char(c: char) -> Seq<char> {
    if c == '\'' {
        seq!['\'', '"', '\'', '"', '\'']
    } else {
        seq![c]
    }
}

/// The escaped output between the surrounding single quotes.
pub open spec fn escape_body(s: Seq<char>) -> Seq<char>
    decreases s.len(),
{
    if s.len() == 0 {
        Seq::empty()
    } else {
        escape_char(s[0]) + escape_body(s.drop_first())
    }
}

/// The full escaped form of a string: `''` for the empty string, otherwise
/// the escaped body wrapped in single quotes.
pub open spec fn escape_spec(s: Seq<char>) -> Seq<char> {
    if s.len() == 0 {
        seq!['\'', '\'']
    } else {
        seq!['\''] + escape_body(s) + seq!['\'']
    }
}

/// The quoting state of a POSIX shell scanning a word.
pub enum QuoteMode {
    /// Outside any quotes.
    Unquoted,
    /// Inside a single-quoted segment.
    Single,
    /// Inside a double-quoted segment.
    Double,
}

/// Characters that a POSIX shell treats specially outside of quotes
/// (word separators, expansion and redirection operators, globs).
pub open spec fn shell_special(c: char) -> bool {
    ||| c == '\''
    ||| c == '"'
    ||| c == '\\'
    ||| c == '$'
    ||| c == '`'
    ||| c == ' '
    ||| c == '\t'
    ||| c == '\n'
    ||| c == ';'
    ||| c == '&'
    ||| c == '|'
    ||| c == '<'
    ||| c == '>'
    ||| c == '('
    ||| c == ')'
    ||| c == '*'
    ||| c == '?'
    ||| c == '['
    ||| c == '#'
    ||| c == '~'
    ||| c == '!'
}

/// Prepends a character to the result of a partial parse, propagating failure.
pub open spec fn opt_prepend(c: char, o: Option<Seq<char>>) -> Option<Seq<char>> {
    match o {
        Some(s) => Some(seq![c] + s),
        None => None,
    }
}

/// A model of how a POSIX shell reads one word: single quotes protect
/// everything up to the next single quote, double quotes protect everything
/// but `$`, backquote and backslash (on which the model gives up rather than
/// model expansion), and outside quotes any special character stops the
/// parse.  `None` means the token is not one plain word under this model.
pub open spec fn sh_dequote_from(t: Seq<char>, m: QuoteMode) -> Option<Seq<char>>
    decreases t.len(),
{
    if t.len() == 0 {
        match m {
            QuoteMode::Unquoted => Some(Seq::empty()),
            _ => None,
        }
    } else {
        let c = t[0];
        let rest = t.drop_first();
        match m {
            QuoteMode::Unquoted => {
                if c == '\'' {
                    sh_dequote_from(rest, QuoteMode::Single)
                } else if c == '"' {
                    sh_dequote_from(rest, QuoteMode::Double)
                } else if shell_special(c) {
                    None
                } else {
                    opt_prepend(c, sh_dequote_from(rest, QuoteMode::Unquoted))
                }
            },
            QuoteMode::Single => {
                if c == '\'' {
                    sh_dequote_from(rest, QuoteMode::Unquoted)
                } else {
                    opt_prepend(c, sh_dequote_from(rest, QuoteMode::Single))
                }
            },
            QuoteMode::Double => {
                if c == '"' {
                    sh_dequote_from(rest, QuoteMode::Unquoted)
                } else if c == '$' || c == '`' || c == '\\' {
                    None
                } else {
                    opt_prepend(c, sh_dequote_from(rest, QuoteMode::Double))
                }
            },
        }
    }
}

/// Reads a whole token as one shell word, starting outside any quotes.
pub open spec fn sh_dequote(t: Seq<char>) -> Option<Seq<char>> {
    sh_dequote_from(t, QuoteMode::Unquoted)
}

/// Appending one more character extends the escaped body by that
/// character's contribution.
proof fn lemma_escape_body_push(s: Seq<char>, c: char)
    ensures
        escape_body(s.push(c)) == escape_body(s) + escape_char(c),
    decreases s.len(),
{
    if s.len() == 0 {
        assert(s.push(c)[0] == c);
        assert(s.push(c).drop_first() =~= Seq::empty());
        assert(escape_body(s.push(c).drop_first()) == Seq::<char>::empty());
        assert(escape_body(s.push(c)) =~= escape_char(c));
        assert(escape_body(s) + escape_char(c) =~= escape_char(c));
    } else {
        assert(s.push(c).drop_first() =~= s.drop_first().push(c));
        lemma_escape_body_push(s.drop_first(), c);
        assert(escape_body(s.push(c)) =~= escape_body(s) + escape_char(c));
    }
}

/// Reading the escaped body in single-quote mode, followed by a closing
/// quote and an arbitrary suffix, yields the original characters followed
/// by whatever the suffix parses to.
proof fn lemma_body_single(s: Seq<char>, suffix: Seq<char>)
    ensures
        sh_dequote_from(escape_body(s) + seq!['\''] + suffix, QuoteMode::Single) == (match sh_dequote_from(
            suffix,
            QuoteMode::Unquoted,
        ) {
            Some(r) => Some(s + r),
            None => None::<Seq<char>>,
        }),
    decreases s.len(),
{
    let t = escape_body(s) + seq!['\''] + suffix;
    if s.len() == 0 {
        assert(t =~= seq!['\''] + suffix);
        assert(t.drop_first() =~= suffix);
        match sh_dequote_from(suffix, QuoteMode::Unquoted) {
            Some(r) => {
                assert(s + r =~= r);
            },
            None => {},
        }
    } else {
        let c0 = s[0];
        let s1 = s.drop_first();
        let b = escape_body(s1) + seq!['\''] + suffix;
        lemma_body_single(s1, suffix);
        if c0 == '\'' {
            assert(t =~= seq!['\'', '"', '\'', '"', '\''] + b);
            let t1 = seq!['"', '\'', '"', '\''] + b;
            let t2 = seq!['\'', '"', '\''] + b;
            let t3 = seq!['"', '\''] + b;
            let t4 = seq!['\''] + b;
            assert(t.drop_first() =~= t1);
            assert(t1.drop_first() =~= t2);
            assert(t2.drop_first() =~= t3);
            assert(t3.drop_first() =~= t4);
            assert(t4.drop_first() =~= b);
            assert(sh_dequote_from(t, QuoteMode::Single) == sh_dequote_from(t1, QuoteMode::Unquoted));
            assert(sh_dequote_from(t1, QuoteMode::Unquoted) == sh_dequote_from(t2, QuoteMode::Double));
            assert(sh_dequote_from(t2, QuoteMode::Double) == opt_prepend(
                '\'',
                sh_dequote_from(t3, QuoteMode::Double),
            ));
            assert(sh_dequote_from(t3, QuoteMode::Double) == sh_dequote_from(t4, QuoteMode::Unquoted));
            assert(sh_dequote_from(t4, QuoteMode::Unquoted) == sh_dequote_from(b, QuoteMode::Single));
            match sh_dequote_from(suffix, QuoteMode::Unquoted) {
                Some(r) => {
                    assert(s + r =~= seq!['\''] + (s1 + r));
                },
                None => {},
            }
        } else {
            assert(t =~= seq![c0] + b);
            assert(t.drop_first() =~= b);
            assert(sh_dequote_from(t, QuoteMode::Single) == opt_prepend(
                c0,
                sh_dequote_from(b, QuoteMode::Single),
            ));
            match sh_dequote_from(suffix, QuoteMode::Unquoted) {
                Some(r) => {
                    assert(s + r =~= seq![c0] + (s1 + r));
                },
                None => {},
            }
        }
    }
}

/// Round-trip law: shell-dequoting the escaped form of any string yields
/// exactly that string, for every input, with no exceptions.
pub proof fn lemma_escape_roundtrip(s: Seq<char>)
    ensures
        sh_dequote(escape_spec(s)) == Some(s),
{
    if s.len() == 0 {
        let t = seq!['\'', '\''];
        assert(t.drop_first() =~= seq!['\'']);
        assert(t.drop_first().drop_first() =~= Seq::<char>::empty());
        assert(sh_dequote_from(t, QuoteMode::Unquoted) == Some(Seq::<char>::empty()));
        assert(Seq::<char>::empty() =~= s);
    } else {
        let t = escape_spec(s);
        let body_tail = escape_body(s) + seq!['\''] + Seq::<char>::empty();
        assert(t[0] == '\'');
        assert(t.drop_first() =~= body_tail);
        lemma_body_single(s, Seq::empty());
        assert(s + Seq::<char>::empty() =~= s);
    }
}

/// Escape a string so a POSIX shell reads it back verbatim as one word.
pub fn sh_escape(s: &str) -> (r: String)
    ensures
        r@ == escape_spec(s@),
{
    let n: usize = s.unicode_len();
    if n == 0 {
        let r = String::from_str("''");
        proof {
            reveal_strlit("''");
            assert(r@ =~= escape_spec(s@));
        }
        r
    } else {
        let mut r = String::from_str("'");
        proof {
            reveal_strlit("'");
            assert(r@ =~= seq!['\''] + escape_body(s@.take(0)));
        }
        let mut i: usize = 0;
        while i < n
            invariant
                i <= n,
                n == s@.len(),
                r@ == seq!['\''] + escape_body(s@.take(i as int)),
            decreases n - i,
        {
            let c = s.get_char(i);
            if c == '\'' {
                r.append("'\"'\"'");
                proof {
                    reveal_strlit("'\"'\"'");
                    assert("'\"'\"'"@ =~= escape_char(s@[i as int]));
                }
            } else {
                let one = s.substring_char(i, i + 1);
                r.append(one);
                proof {
                    assert(one@ =~= seq![s@[i as int]]);
                    assert(seq![s@[i as int]] =~= escape_char(s@[i as int]));
                }
            }
            proof {
                assert(s@.take(i as int).push(s@[i as int]) =~= s@.take(i + 1));
                lemma_escape_body_push(s@.take(i as int), s@[i as int]);
                assert(r@ =~= seq!['\''] + escape_body(s@.take(i + 1)));
            }
            i += 1;
        }
        r.append("'");
        proof {
            reveal_strlit("'");
            assert(s@.take(n as int) =~= s@);
            assert(r@ =~= escape_spec(s@));
        }
        r
    }
}

/// Escape a filesystem path for POSIX shells via [`sh_escape`].
pub fn sh_escape_path(p: &str) -> (r: String)
    ensures
        r@ == escape_spec(p@),
{
    sh_escape(p)
}

} // verus!

