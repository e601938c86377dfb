//! Classification of a slide line as a heading of level one to four, or body
//! text.
use crate::text::{
    hash_run, is_ws, lead_count, lemma_lead_count, lemma_lead_count_unique, repeat_char,
    trim_ws_start, is_blank,
};
use crate::theme::{Rgb, Theme};
use vstd::prelude::*;

verus! {

/// Heading levels one to four.
#[derive(Clone, Copy, Debug, PartialEq, Eq, Structural)]
pub enum Header {
    Header1,
    Header2,
    Header3,
    Header4,
}

impl Header {
    /// The level of the heading, from one to four.
    pub open spec fn level(self) -> nat {
        match self {
            Header::Header1 => 1,
            Header::Header2 => 2,
            Header::Header3 => 3,
            Header::Header4 => 4,
        }
    }

    /// The heading of level `n`, if `n` is one to four.
    pub open spec fn for_level(n: nat) -> Option<Header> {
        if n == 1 {
            Some(Header::Header1)
        } else if n == 2 {
            Some(Header::Header2)
        } else if n == 3 {
            Some(Header::Header3)
        } else if n == 4 {
            Some(Header::Header4)
        } else {
            None
        }
    }

    /// The theme slot of each level: green, teal, red, peach.
    pub open spec fn spec_color(self, theme: Theme) -> Rgb {
        match self {
            Header::Header1 => theme.green,
            Header::Header2 => theme.teal,
            Header::Header3 => theme.red,
            Header::Header4 => theme.peach,
        }
    }

    /// The colour that `theme` gives to this heading level.
    pub fn color(&self, theme: &Theme) -> (r: Rgb)
        ensures
            r == self.spec_color(*theme),
    {
        match self {
            Header::Header1 => theme.green,
            Header::Header2 => theme.teal,
            Header::Header3 => theme.red,
            Header::Header4 => theme.peach,
        }
    }

    /// The heading that a marker of one to four `#` characters opens; any
    /// other text opens none.
    pub fn header_by_prefix(prefix: &str) -> (r: Option<Header>)
        ensures
            r == (if prefix@ == repeat_char('#', prefix@.len()) {
                Header::for_level(prefix@.len())
            } else {
                None
            }),
    {
        let n = prefix.unicode_len();
        let mut i: usize = 0;
        while i < n && prefix.get_char(i) == '#'
            invariant
                n == prefix@.len(),
                i <= n,
                forall|j: int| 0 <= j < i ==> #[trigger] prefix@[j] == '#',
            decreases n - i,
        {
            i = i + 1;
        }
        if i < n {
            assert(prefix@[i as int] != repeat_char('#', n as nat)[i as int]);
            return None;
        }
        assert(prefix@ =~= repeat_char('#', n as nat));
        if n == 1 {
            Some(Header::Header1)
        } else if n == 2 {
            Some(Header::Header2)
        } else if n == 3 {
            Some(Header::Header3)
        } else if n == 4 {
            Some(Header::Header4)
        } else {
            None
        }
    }
}

/// Splits `s` into its run of leading `#` characters and the rest, with the
/// rest's leading whitespace removed.
pub fn extract_prefix(s: &str) -> (r: (String, &str))
    ensures
        r.0@ == s@.take(hash_run(s@) as int),
        r.1@ == trim_ws_start(s@.skip(hash_run(s@) as int)),
{
    let len = s.unicode_len();
    proof {
        assert(s@.skip(0) =~= s@);
    }
    let n = crate::text::count_hashes(s, 0);
    proof {
        lemma_lead_count(s@, |c: char| c == '#');
    }
    let w = crate::text::count_ws(s, n);
    proof {
        lemma_lead_count(s@.skip(n as int), |c: char| is_ws(c));
    }
    let prefix = String::from_str(s.substring_char(0, n));
    let rest = s.substring_char(n + w, len);
    proof {
        assert(rest@ =~= s@.skip(n as int).skip(w as int));
    }
    (prefix, rest)
}

/// What a line shows and which heading it opens: one to four leading `#`
/// make a heading whose text is the rest of the line without its leading
/// whitespace; any other line is body text shown unchanged.
pub open spec fn classify_spec(s: Seq<char>) -> (Seq<char>, Option<Header>) {
    let n = hash_run(s);
    if 1 <= n <= 4 {
        (trim_ws_start(s.skip(n as int)), Header::for_level(n))
    } else {
        (s, None)
    }
}

/// Classifies one line of a slide (see `classify_spec`).
pub fn classify(line: &str) -> (r: (String, Option<Header>))
    ensures
        r.0@ == classify_spec(line@).0,
        r.1 == classify_spec(line@).1,
{
    let (prefix, rest) = extract_prefix(line);
    proof {
        lemma_lead_count(line@, |c: char| c == '#');
        assert(prefix@ =~= repeat_char('#', prefix@.len()));
    }
    match Header::header_by_prefix(prefix.as_str()) {
        Some(h) => (String::from_str(rest), Some(h)),
        None => (String::from_str(line), None),
    }
}

/// A line that does not start with `#` is body text, shown unchanged.
pub proof fn lemma_plain_line(s: Seq<char>)
    requires
        s.len() == 0 || s[0] != '#',
    ensures
        classify_spec(s) == (s, Option::<Header>::None),
{
}

/// One to four `#` followed by text that does not start with `#` make a heading
/// of that level; its text is the rest with all leading whitespace removed and
/// everything after that, trailing whitespace included, kept.
pub proof fn lemma_heading_line(n: nat, r: Seq<char>)
    requires
        1 <= n <= 4,
        r.len() == 0 || r[0] != '#',
    ensures
        classify_spec(repeat_char('#', n) + r) == (trim_ws_start(r), Header::for_level(n)),
        Header::for_level(n) is Some && Header::for_level(n).unwrap().level() == n,
        is_blank(r.take(lead_count(r, |c: char| is_ws(c)) as int)),
        trim_ws_start(r) == r.skip(lead_count(r, |c: char| is_ws(c)) as int),
        trim_ws_start(r).len() > 0 ==> !is_ws(trim_ws_start(r)[0]),
{
    lemma_hash_prefix(n, r);
    let s = repeat_char('#', n) + r;
    assert(s.skip(n as int) =~= r);
    let k = lead_count(r, |c: char| is_ws(c));
    lemma_lead_count(r, |c: char| is_ws(c));
    assert forall|i: int| 0 <= i < r.take(k as int).len() implies is_ws(
        #[trigger] r.take(k as int)[i],
    ) by {
        assert((|c: char| is_ws(c))(r[i]));
    }
    if trim_ws_start(r).len() > 0 {
        assert(trim_ws_start(r)[0] == r[k as int]);
    }
}

/// Five or more `#` do not make a heading: the line is body text, shown
/// unchanged, marker included.
pub proof fn lemma_long_marker_line(n: nat, r: Seq<char>)
    requires
        n >= 5,
        r.len() == 0 || r[0] != '#',
    ensures
        classify_spec(repeat_char('#', n) + r) == (repeat_char('#', n) + r, Option::<Header>::None),
{
    lemma_hash_prefix(n, r);
}

proof fn lemma_hash_prefix(n: nat, r: Seq<char>)
    requires
        r.len() == 0 || r[0] != '#',
    ensures
        hash_run(repeat_char('#', n) + r) == n,
{
    let s = repeat_char('#', n) + r;
    assert forall|i: int| 0 <= i < n implies (|c: char| c == '#')(#[trigger] s[i]) by {}
    if n < s.len() {
        assert(s[n as int] == r[0]);
    }
    lemma_lead_count_unique(s, |c: char| c == '#', n);
}

} // verus!
