//! Print job options and their builder.
//!
//! All fields are free text under the caller's control and are never trusted
//! as shell-safe; the command builder escapes them.  Job options are held as
//! a key-sorted list with unique keys, so the rendered `-o key=value`
//! sequence is deterministic no matter in which order options were added.

use vstd::prelude::*;

use crate::order::lemma_lex_asym;
use crate::order::lemma_lex_connex;
use crate::order::lemma_lex_irrefl;
use crate::order::lemma_lex_trans;
use crate::order::lex_lt;
use crate::order::str_lt;

verus! {

/// The view of a key/value list: each pair as character sequences.
pub open spec fn pairs_view(s: Seq<(String, String)>) -> Seq<(Seq<char>, Seq<char>)> {
    s.map_values(|p: (String, String)| (p.0@, p.1@))
}

/// The view of an optional string.
pub open spec fn opt_str_view(o: Option<String>) -> Option<Seq<char>> {
    match o {
        Some(s) => Some(s@),
        None => None,
    }
}

/// Keys strictly increase along the list: sorted by key, no duplicates.
pub open spec fn sorted_by_key(s: Seq<(Seq<char>, Seq<char>)>) -> bool {
    forall|i: int, j: int| 0 <= i < j < s.len() ==> lex_lt(s[i].0, s[j].0)
}

/// Insertion into a key-sorted list: replaces the value of an existing key,
/// otherwise splices the pair in at its ordered position.
pub open spec fn sorted_insert(
    s: Seq<(Seq<char>, Seq<char>)>,
    k: Seq<char>,
    v: Seq<char>,
) -> Seq<(Seq<char>, Seq<char>)>
    decreases s.len(),
{
    if s.len() == 0 {
        seq![(k, v)]
    } else if lex_lt(k, s[0].0) {
        seq![(k, v)] + s
    } else if k == s[0].0 {
        seq![(k, v)] + s.drop_first()
    } else {
        seq![s[0]] + sorted_insert(s.drop_first(), k, v)
    }
}

/// Inserting a whole list of pairs in order, later pairs winning on equal
/// keys.
pub open spec fn sorted_insert_all(
    s: Seq<(Seq<char>, Seq<char>)>,
    l: Seq<(Seq<char>, Seq<char>)>,
) -> Seq<(Seq<char>, Seq<char>)>
    decreases l.len(),
{
    if l.len() == 0 {
        s
    } else {
        sorted_insert(sorted_insert_all(s, l.drop_last()), l.last().0, l.last().1)
    }
}

/// Options for a print job (CUPS `lp`/`lpr`).
#[derive(Debug, Clone)]
pub struct DruckerOptions {
    /// Printer name (passed as `lp -d <printer>` or `lpr -P <printer>`).
    pub destination: Option<String>,
    /// Number of copies (`lp -n <copies>` or `lpr -#<copies>`).
    pub copies: Option<u32>,
    /// Job title (`lp -t <title>` or `lpr -J <title>` when available).
    pub title: Option<String>,
    /// Arbitrary `-o key=value` options, kept sorted by key.
    pub job_options: Vec<(String, String)>,
    /// Use `lpr` instead of `lp`.
    pub use_lpr: bool,
}

/// The options value that carries nothing: no destination, copies or title,
/// no job options, and the `lp` dialect.
pub open spec fn is_empty_opts(o: DruckerOptions) -> bool {
    &&& o.destination is None
    &&& o.copies is None
    &&& o.title is None
    &&& o.job_opts() == Seq::<(Seq<char>, Seq<char>)>::empty()
    &&& o.use_lpr == false
}

impl DruckerOptions {
    /// The job options as key/value character sequences, in list order.
    pub open spec fn job_opts(&self) -> Seq<(Seq<char>, Seq<char>)> {
        pairs_view(self.job_options@)
    }

    /// Well-formed options: the job option list is sorted by key.
    pub open spec fn wf(&self) -> bool {
        sorted_by_key(self.job_opts())
    }

    /// Start building [`DruckerOptions`] using the builder pattern.
    pub fn builder() -> (r: DruckerOptionsBuilder)
        ensures
            is_empty_opts(r.opts()),
    {
        DruckerOptionsBuilder { options: Self::default() }
    }

    /// Looks up the value stored for `key`, if any.
    pub fn job_option_value(&self, key: &str) -> (r: Option<String>)
        ensures
            match r {
                Some(v) => exists|i: int|
                    0 <= i < self.job_opts().len() && self.job_opts()[i] == (key@, v@),
                None => forall|i: int|
                    0 <= i < self.job_opts().len() ==> self.job_opts()[i].0 != key@,
            },
    {
        let mut i: usize = 0;
        while i < self.job_options.len()
            invariant
                i <= self.job_options@.len(),
                forall|j: int| 0 <= j < i ==> self.job_opts()[j].0 != key@,
            decreases self.job_options@.len() - i,
        {
            let k = self.job_options[i].0.as_str();
            let below = str_lt(k, key);
            let above = str_lt(key, k);
            if !below && !above {
                proof {
                    lemma_lex_connex(self.job_options@[i as int].0@, key@);
                }
                let val = self.job_options[i].1.clone();
                proof {
                    assert(self.job_opts()[i as int] == (key@, val@));
                }
                return Some(val);
            }
            proof {
                if below {
                    lemma_lex_asym(self.job_opts()[i as int].0, key@);
                } else {
                    lemma_lex_asym(key@, self.job_opts()[i as int].0);
                }
                assert(self.job_opts()[i as int].0 != key@);
            }
            i += 1;
        }
        None
    }

    /// The number of job options held.
    pub fn job_option_count(&self) -> (n: usize)
        ensures
            n == self.job_opts().len(),
    {
        self.job_options.len()
    }
}

impl Default for DruckerOptions {
    /// The empty job description.
    fn default() -> (r: Self)
        ensures
            is_empty_opts(r),
    {
        let r = DruckerOptions {
            destination: None,
            copies: None,
            title: None,
            job_options: Vec::new(),
            use_lpr: false,
        };
        proof {
            assert(r.job_opts() =~= Seq::<(Seq<char>, Seq<char>)>::empty());
        }
        r
    }
}

/// Builder for [`DruckerOptions`].
pub struct DruckerOptionsBuilder {
    options: DruckerOptions,
}

impl DruckerOptionsBuilder {
    /// The options value built so far.
    pub closed spec fn opts(&self) -> DruckerOptions {
        self.options
    }

    /// Set the destination printer name.
    pub fn destination(self, destination: &str) -> (r: Self)
        ensures
            opt_str_view(r.opts().destination) == Some(destination@),
            r.opts().copies == self.opts().copies,
            r.opts().title == self.opts().title,
            r.opts().job_opts() == self.opts().job_opts(),
            r.opts().use_lpr == self.opts().use_lpr,
    {
        let mut options = self.options;
        options.destination = Some(String::from_str(destination));
        DruckerOptionsBuilder { options }
    }

    /// Set the destination printer from an optional value.
    pub fn destination_if(self, destination: Option<&str>) -> (r: Self)
        ensures
            opt_str_view(r.opts().destination) == (match destination {
                Some(d) => Some(d@),
                None => None::<Seq<char>>,
            }),
            r.opts().copies == self.opts().copies,
            r.opts().title == self.opts().title,
            r.opts().job_opts() == self.opts().job_opts(),
            r.opts().use_lpr == self.opts().use_lpr,
    {
        let mut options = self.options;
        options.destination = match destination {
            Some(d) => Some(String::from_str(d)),
            None => None,
        };
        DruckerOptionsBuilder { options }
    }

    /// Clear any previously set destination printer.
    pub fn clear_destination(self) -> (r: Self)
        ensures
            r.opts().destination is None,
            r.opts().copies == self.opts().copies,
            r.opts().title == self.opts().title,
            r.opts().job_opts() == self.opts().job_opts(),
            r.opts().use_lpr == self.opts().use_lpr,
    {
        let mut options = self.options;
        options.destination = None;
        DruckerOptionsBuilder { options }
    }

    /// Set the number of copies to print.
    pub fn copies(self, copies: u32) -> (r: Self)
        ensures
            r.opts().copies == Some(copies),
            r.opts().destination == self.opts().destination,
            r.opts().title == self.opts().title,
            r.opts().job_opts() == self.opts().job_opts(),
            r.opts().use_lpr == self.opts().use_lpr,
    {
        let mut options = self.options;
        options.copies = Some(copies);
        DruckerOptionsBuilder { options }
    }

    /// Clear any previously set copies value.
    pub fn clear_copies(self) -> (r: Self)
        ensures
            r.opts().copies is None,
            r.opts().destination == self.opts().destination,
            r.opts().title == self.opts().title,
            r.opts().job_opts() == self.opts().job_opts(),
            r.opts().use_lpr == self.opts().use_lpr,
    {
        let mut options = self.options;
        options.copies = None;
        DruckerOptionsBuilder { options }
    }

    /// Set the job title.
    pub fn title(self, title: &str) -> (r: Self)
        ensures
            opt_str_view(r.opts().title) == Some(title@),
            r.opts().destination == self.opts().destination,
            r.opts().copies == self.opts().copies,
            r.opts().job_opts() == self.opts().job_opts(),
            r.opts().use_lpr == self.opts().use_lpr,
    {
        let mut options = self.options;
        options.title = Some(String::from_str(title));
        DruckerOptionsBuilder { options }
    }

    /// Clear any previously set job title.
    pub fn clear_title(self) -> (r: Self)
        ensures
            r.opts().title is None,
            r.opts().destination == self.opts().destination,
            r.opts().copies == self.opts().copies,
            r.opts().job_opts() == self.opts().job_opts(),
            r.opts().use_lpr == self.opts().use_lpr,
    {
        let mut options = self.options;
        options.title = None;
        DruckerOptionsBuilder { options }
    }

    /// Replace the entire set of job options with the given pairs, taken in
    /// order, a later pair replacing an earlier one with the same key.
    pub fn job_options(self, job_options: Vec<(String, String)>) -> (r: Self)
        ensures
            r.opts().job_opts() == sorted_insert_all(
                Seq::<(Seq<char>, Seq<char>)>::empty(),
                pairs_view(job_options@),
            ),
            r.opts().wf(),
            r.opts().destination == self.opts().destination,
            r.opts().copies == self.opts().copies,
            r.opts().title == self.opts().title,
            r.opts().use_lpr == self.opts().use_lpr,
    {
        let ghost orig = pairs_view(job_options@);
        let mut l = job_options;
        let mut options = self.options;
        options.job_options = Vec::new();
        proof {
            assert(pairs_view(options.job_options@) =~= Seq::<(Seq<char>, Seq<char>)>::empty());
            assert(orig.take(0) =~= Seq::<(Seq<char>, Seq<char>)>::empty());
        }
        while l.len() > 0
            invariant
                l@.len() <= orig.len(),
                options.destination == self.opts().destination,
                options.copies == self.opts().copies,
                options.title == self.opts().title,
                options.use_lpr == self.opts().use_lpr,
                pairs_view(l@) == orig.skip(orig.len() - l@.len()),
                pairs_view(options.job_options@) == sorted_insert_all(
                    Seq::<(Seq<char>, Seq<char>)>::empty(),
                    orig.take(orig.len() - l@.len()),
                ),
                sorted_by_key(pairs_view(options.job_options@)),
            decreases l@.len(),
        {
            let ghost done: int = orig.len() - l@.len();
            let ghost lpre = l@;
            let pair = l.remove(0);
            proof {
                assert(pairs_view(lpre)[0] == orig.skip(done)[0]);
                assert(orig.skip(done)[0] == orig[done]);
                assert((pair.0@, pair.1@) == orig[done]);
                assert(pairs_view(l@) =~= pairs_view(lpre).drop_first());
                assert(pairs_view(lpre).drop_first() =~= orig.skip(done + 1));
            }
            let (key, value) = pair;
            insert_job_option(&mut options.job_options, key, value);
            proof {
                assert(orig.take(done + 1).drop_last() =~= orig.take(done));
                assert(orig.take(done + 1).last() == orig[done]);
                assert(key@ == orig[done].0 && value@ == orig[done].1);
            }
        }
        proof {
            assert(orig.take(orig.len() - l@.len()) =~= orig);
        }
        DruckerOptionsBuilder { options }
    }

    /// Insert or replace a single job option key/value pair.
    pub fn job_option(self, key: &str, value: &str) -> (r: Self)
        ensures
            r.opts().job_opts() == sorted_insert(self.opts().job_opts(), key@, value@),
            self.opts().wf() ==> r.opts().wf(),
            r.opts().destination == self.opts().destination,
            r.opts().copies == self.opts().copies,
            r.opts().title == self.opts().title,
            r.opts().use_lpr == self.opts().use_lpr,
    {
        let mut options = self.options;
        insert_job_option(&mut options.job_options, String::from_str(key), String::from_str(value));
        DruckerOptionsBuilder { options }
    }

    /// Configure whether to use `lpr` instead of `lp`.
    pub fn use_lpr(self, use_lpr: bool) -> (r: Self)
        ensures
            r.opts().use_lpr == use_lpr,
            r.opts().destination == self.opts().destination,
            r.opts().copies == self.opts().copies,
            r.opts().title == self.opts().title,
            r.opts().job_opts() == self.opts().job_opts(),
    {
        let mut options = self.options;
        options.use_lpr = use_lpr;
        DruckerOptionsBuilder { options }
    }

    /// Finish building and return the [`DruckerOptions`].
    pub fn build(self) -> (r: DruckerOptions)
        ensures
            r == self.opts(),
    {
        self.options
    }
}

/// Dropping the first pair of a sorted list keeps it sorted.
proof fn lemma_sorted_drop_first(s: Seq<(Seq<char>, Seq<char>)>)
    requires
        s.len() > 0,
        sorted_by_key(s),
    ensures
        sorted_by_key(s.drop_first()),
{
    assert forall|i: int, j: int| 0 <= i < j < s.drop_first().len() implies lex_lt(
        s.drop_first()[i].0,
        s.drop_first()[j].0,
    ) by {
        assert(s.drop_first()[i] == s[i + 1]);
        assert(s.drop_first()[j] == s[j + 1]);
    }
}

/// Helper for the insertion-order law, with the two keys ordered.
proof fn lemma_sorted_insert_commutes_ordered(
    s: Seq<(Seq<char>, Seq<char>)>,
    k1: Seq<char>,
    v1: Seq<char>,
    k2: Seq<char>,
    v2: Seq<char>,
)
    requires
        sorted_by_key(s),
        lex_lt(k1, k2),
    ensures
        sorted_insert(sorted_insert(s, k1, v1), k2, v2) == sorted_insert(
            sorted_insert(s, k2, v2),
            k1,
            v1,
        ),
    decreases s.len(),
{
    lemma_lex_asym(k1, k2);
    let p1 = (k1, v1);
    let p2 = (k2, v2);
    if s.len() == 0 {
        let e = Seq::<(Seq<char>, Seq<char>)>::empty();
        assert(sorted_insert(e, k2, v2) == seq![p2]);
        assert((seq![p1])[0] == p1);
        assert((seq![p1]).drop_first() =~= e);
        assert(sorted_insert(seq![p1], k2, v2) == seq![p1] + sorted_insert(e, k2, v2));
        assert((seq![p2])[0] == p2);
        assert(sorted_insert(seq![p2], k1, v1) == seq![p1] + seq![p2]);
        assert(seq![p1] + sorted_insert(e, k2, v2) =~= seq![p1] + seq![p2]);
    } else {
        let h = s[0];
        let t = s.drop_first();
        lemma_sorted_drop_first(s);
        if lex_lt(k2, h.0) {
            lemma_lex_trans(k1, k2, h.0);
            let a = seq![p1] + s;
            assert(sorted_insert(s, k1, v1) == a);
            assert(a[0] == p1 && a.drop_first() =~= s);
            assert(sorted_insert(a, k2, v2) == seq![p1] + sorted_insert(s, k2, v2));
            let b = seq![p2] + s;
            assert(sorted_insert(s, k2, v2) == b);
            assert(b[0] == p2);
            assert(sorted_insert(b, k1, v1) == seq![p1] + b);
            assert(seq![p1] + sorted_insert(s, k2, v2) =~= seq![p1] + b);
        } else if k2 == h.0 {
            lemma_lex_irrefl(k2);
            let a = seq![p1] + s;
            assert(sorted_insert(s, k1, v1) == a);
            assert(a[0] == p1 && a.drop_first() =~= s);
            assert(sorted_insert(a, k2, v2) == seq![p1] + sorted_insert(s, k2, v2));
            let b = seq![p2] + t;
            assert(sorted_insert(s, k2, v2) == b);
            assert(b[0] == p2);
            assert(sorted_insert(b, k1, v1) == seq![p1] + b);
            assert(seq![p1] + sorted_insert(s, k2, v2) =~= seq![p1] + b);
        } else {
            // here lex_lt(h.0, k2): neither below nor equal to the head key
            if !lex_lt(h.0, k2) {
                lemma_lex_connex(k2, h.0);
            }
            assert(lex_lt(h.0, k2));
            lemma_lex_asym(h.0, k2);
            let ins2t = sorted_insert(t, k2, v2);
            assert(sorted_insert(s, k2, v2) == seq![h] + ins2t);
            if lex_lt(k1, h.0) {
                let a = seq![p1] + s;
                assert(sorted_insert(s, k1, v1) == a);
                assert(a[0] == p1 && a.drop_first() =~= s);
                assert(sorted_insert(a, k2, v2) == seq![p1] + sorted_insert(s, k2, v2));
                let b = seq![h] + ins2t;
                assert(b[0] == h);
                assert(sorted_insert(b, k1, v1) == seq![p1] + b);
                assert(seq![p1] + sorted_insert(s, k2, v2) =~= seq![p1] + b);
            } else if k1 == h.0 {
                lemma_lex_irrefl(k1);
                let a = seq![p1] + t;
                assert(sorted_insert(s, k1, v1) == a);
                assert(a[0] == p1 && a.drop_first() =~= t);
                assert(sorted_insert(a, k2, v2) == seq![p1] + sorted_insert(t, k2, v2));
                let b = seq![h] + ins2t;
                assert(b[0] == h && b.drop_first() =~= ins2t);
                assert(sorted_insert(b, k1, v1) == seq![p1] + b.drop_first());
                assert(seq![p1] + sorted_insert(t, k2, v2) =~= seq![p1] + b.drop_first());
            } else {
                if !lex_lt(h.0, k1) {
                    lemma_lex_connex(k1, h.0);
                }
                assert(lex_lt(h.0, k1));
                lemma_lex_asym(h.0, k1);
                lemma_sorted_insert_commutes_ordered(t, k1, v1, k2, v2);
                let ins1t = sorted_insert(t, k1, v1);
                let a = seq![h] + ins1t;
                assert(sorted_insert(s, k1, v1) == a);
                assert(a[0] == h && a.drop_first() =~= ins1t);
                assert(sorted_insert(a, k2, v2) == seq![h] + sorted_insert(ins1t, k2, v2));
                let b = seq![h] + ins2t;
                assert(b[0] == h && b.drop_first() =~= ins2t);
                assert(sorted_insert(b, k1, v1) == seq![h] + sorted_insert(ins2t, k1, v1));
            }
        }
    }
}

/// Insertion-order law: two job options with different keys can be added
/// in either order; the resulting sorted option list is the same, so the
/// rendered `-o` tokens do not depend on the insertion order.
pub proof fn lemma_job_option_order_irrelevant(
    s: Seq<(Seq<char>, Seq<char>)>,
    k1: Seq<char>,
    v1: Seq<char>,
    k2: Seq<char>,
    v2: Seq<char>,
)
    requires
        sorted_by_key(s),
        k1 != k2,
    ensures
        sorted_insert(sorted_insert(s, k1, v1), k2, v2) == sorted_insert(
            sorted_insert(s, k2, v2),
            k1,
            v1,
        ),
{
    if lex_lt(k1, k2) {
        lemma_sorted_insert_commutes_ordered(s, k1, v1, k2, v2);
    } else {
        if !lex_lt(k2, k1) {
            lemma_lex_connex(k1, k2);
        }
        lemma_sorted_insert_commutes_ordered(s, k2, v2, k1, v1);
    }
}

/// Where the scan in `insert_job_option` stops, `sorted_insert` either
/// updates in place (same key) or splices the new pair in.
proof fn lemma_sorted_insert_at(s: Seq<(Seq<char>, Seq<char>)>, k: Seq<char>, v: Seq<char>, i: int)
    requires
        0 <= i <= s.len(),
        forall|j: int| 0 <= j < i ==> lex_lt(s[j].0, k),
        i < s.len() ==> !lex_lt(s[i].0, k),
    ensures
        i < s.len() && s[i].0 == k ==> sorted_insert(s, k, v) == s.update(i, (k, v)),
        (i == s.len() || s[i].0 != k) ==> sorted_insert(s, k, v) == s.take(i) + seq![(k, v)]
            + s.skip(i),
    decreases i,
{
    if i == 0 {
        if s.len() == 0 {
            assert(sorted_insert(s, k, v) =~= s.take(0) + seq![(k, v)] + s.skip(0));
        } else if s[0].0 == k {
            lemma_lex_irrefl(k);
            assert(sorted_insert(s, k, v) == seq![(k, v)] + s.drop_first());
            assert(seq![(k, v)] + s.drop_first() =~= s.update(0, (k, v)));
        } else {
            if !lex_lt(k, s[0].0) {
                lemma_lex_connex(k, s[0].0);
            }
            assert(lex_lt(k, s[0].0));
            assert(seq![(k, v)] + s =~= s.take(0) + seq![(k, v)] + s.skip(0));
        }
    } else {
        assert(lex_lt(s[0].0, k));
        lemma_lex_asym(s[0].0, k);
        let s1 = s.drop_first();
        assert(forall|j: int| 0 <= j < i - 1 ==> s1[j] == s[j + 1]);
        lemma_sorted_insert_at(s1, k, v, i - 1);
        assert(sorted_insert(s, k, v) == seq![s[0]] + sorted_insert(s1, k, v));
        if i < s.len() && s[i].0 == k {
            assert(seq![s[0]] + s1.update(i - 1, (k, v)) =~= s.update(i, (k, v)));
        } else {
            assert(seq![s[0]] + (s1.take(i - 1) + seq![(k, v)] + s1.skip(i - 1)) =~= s.take(i)
                + seq![(k, v)] + s.skip(i));
        }
    }
}

/// Inserts or replaces one key/value pair, keeping the list sorted by key.
fn insert_job_option(v: &mut Vec<(String, String)>, key: String, value: String)
    ensures
        pairs_view(final(v)@) == sorted_insert(pairs_view(old(v)@), key@, value@),
        sorted_by_key(pairs_view(old(v)@)) ==> sorted_by_key(pairs_view(final(v)@)),
{
    let ghost s = pairs_view(v@);
    let mut i: usize = 0;
    while i < v.len() && str_lt(v[i].0.as_str(), key.as_str())
        invariant
            i <= v@.len(),
            v@ == old(v)@,
            s == pairs_view(v@),
            forall|j: int| 0 <= j < i ==> lex_lt(s[j].0, key@),
        decreases v@.len() - i,
    {
        i += 1;
    }
    proof {
        lemma_sorted_insert_at(s, key@, value@, i as int);
    }
    if i < v.len() && !str_lt(key.as_str(), v[i].0.as_str()) {
        proof {
            lemma_lex_connex(s[i as int].0, key@);
            assert(s[i as int].0 == key@);
        }
        let _ = v.remove(i);
        v.insert(i, (key, value));
        proof {
            assert(pairs_view(final(v)@) =~= s.update(i as int, (key@, value@)));
            if sorted_by_key(s) {
                assert forall|p: int, q: int|
                    0 <= p < q < s.update(i as int, (key@, value@)).len() implies lex_lt(
                    s.update(i as int, (key@, value@))[p].0,
                    s.update(i as int, (key@, value@))[q].0,
                ) by {
                    assert(s.update(i as int, (key@, value@))[p].0 == s[p].0);
                    assert(s.update(i as int, (key@, value@))[q].0 == s[q].0);
                }
            }
        }
    } else {
        proof {
            if i < v@.len() {
                if s[i as int].0 == key@ {
                    lemma_lex_irrefl(key@);
                }
                assert(s[i as int].0 != key@);
                if !lex_lt(key@, s[i as int].0) {
                    lemma_lex_connex(key@, s[i as int].0);
                }
                assert(lex_lt(key@, s[i as int].0));
            }
        }
        v.insert(i, (key, value));
        proof {
            let t = s.take(i as int) + seq![(key@, value@)] + s.skip(i as int);
            assert(pairs_view(final(v)@) =~= t);
            if sorted_by_key(s) {
                assert forall|p: int, q: int| 0 <= p < q < t.len() implies lex_lt(
                    t[p].0,
                    t[q].0,
                ) by {
                    if q < i {
                        assert(t[p] == s[p] && t[q] == s[q]);
                    } else if p > i {
                        assert(t[p] == s[p - 1] && t[q] == s[q - 1]);
                    } else if p < i && q == i {
                        assert(t[p] == s[p]);
                    } else if p < i && q > i {
                        assert(t[p] == s[p] && t[q] == s[q - 1]);
                        assert(lex_lt(s[p].0, s[q - 1].0));
                    } else if p == i && q > i {
                        assert(t[q] == s[q - 1]);
                        assert(lex_lt(key@, s[i as int].0));
                        if q - 1 > i {
                            lemma_lex_trans(key@, s[i as int].0, s[q - 1].0);
                        }
                        assert(lex_lt(key@, s[q - 1].0));
                    }
                }
            }
        }
    }
}

} // verus!
