//! Character-level helpers: whitespace, leading runs, line splitting and
//! decimal formatting.
use vstd::prelude::*;

verus! {

/// The characters that carry the Unicode `White_Space` property.
pub open spec fn is_ws(c: char) -> bool {
    c == '\t' || c == '\n' || c == '\u{0B}' || c == '\u{0C}' || c == '\r' || c == ' '
        || c == '\u{85}' || c == '\u{A0}' || c == '\u{1680}' || ('\u{2000}' <= c
        && c <= '\u{200A}') || c == '\u{2028}' || c == '\u{2029}' || c == '\u{202F}'
        || c == '\u{205F}' || c == '\u{3000}'
}

/// Whether `c` is Unicode whitespace.
pub fn is_whitespace(c: char) -> (r: bool)
    ensures
        r == is_ws(c),
{
    c == '\t' || c == '\n' || c == '\u{0B}' || c == '\u{0C}' || c == '\r' || c == ' '
        || c == '\u{85}' || c == '\u{A0}' || c == '\u{1680}' || ('\u{2000}' <= c
        && c <= '\u{200A}') || c == '\u{2028}' || c == '\u{2029}' || c == '\u{202F}'
        || c == '\u{205F}' || c == '\u{3000}'
}

/// Length of the longest prefix of `s` whose characters all satisfy `p`.
pub open spec fn lead_count(s: Seq<char>, p: spec_fn(char) -> bool) -> nat
    decreases s.len(),
{
    if s.len() > 0 && p(s[0]) {
        1 + lead_count(s.drop_first(), p)
    } else {
        0
    }
}

/// Number of leading `#` characters of `s`.
pub open spec fn hash_run(s: Seq<char>) -> nat {
    lead_count(s, |c: char| c == '#')
}

/// `s` without its leading whitespace.
pub open spec fn trim_ws_start(s: Seq<char>) -> Seq<char> {
    s.skip(lead_count(s, |c: char| is_ws(c)) as int)
}

/// A line is blank when it holds whitespace only.
pub open spec fn is_blank(s: Seq<char>) -> bool {
    forall|i: int| 0 <= i < s.len() ==> is_ws(#[trigger] s[i])
}

/// `n` copies of `c`.
pub open spec fn repeat_char(c: char, n: nat) -> Seq<char> {
    Seq::new(n, |i: int| c)
}

/// The leading run has the expected shape: all its characters satisfy `p`, and
/// the character after it (if any) does not.
pub proof fn lemma_lead_count(s: Seq<char>, p: spec_fn(char) -> bool)
    ensures
        lead_count(s, p) <= s.len(),
        forall|i: int| 0 <= i < lead_count(s, p) ==> p(#[trigger] s[i]),
        lead_count(s, p) < s.len() ==> !p(s[lead_count(s, p) as int]),
    decreases s.len(),
{
    if s.len() > 0 && p(s[0]) {
        lemma_lead_count(s.drop_first(), p);
        assert forall|i: int| 0 <= i < lead_count(s, p) implies p(#[trigger] s[i]) by {
            if i > 0 {
                assert(s[i] == s.drop_first()[i - 1]);
            }
        }
    }
}

/// The leading run is determined by the shape stated in `lemma_lead_count`.
pub proof fn lemma_lead_count_unique(s: Seq<char>, p: spec_fn(char) -> bool, n: nat)
    requires
        n <= s.len(),
        forall|i: int| 0 <= i < n ==> p(#[trigger] s[i]),
        n < s.len() ==> !p(s[n as int]),
    ensures
        lead_count(s, p) == n,
    decreases s.len(),
{
    if n > 0 {
        assert(p(s[0]));
        let t = s.drop_first();
        assert forall|i: int| 0 <= i < n - 1 implies p(#[trigger] t[i]) by {
            assert(t[i] == s[i + 1]);
        }
        if n - 1 < t.len() {
            assert(t[n - 1] == s[n as int]);
        }
        lemma_lead_count_unique(t, p, (n - 1) as nat);
    }
}

fn is_lead_char(c: char, hash: bool) -> (r: bool)
    ensures
        r == (if hash {
            c == '#'
        } else {
            is_ws(c)
        }),
{
    if hash {
        c == '#'
    } else {
        is_whitespace(c)
    }
}

/// Number of `#` characters at the start of `s@.skip(start)`.
pub fn count_hashes(s: &str, start: usize) -> (n: usize)
    requires
        start <= s@.len(),
    ensures
        n == hash_run(s@.skip(start as int)),
{
    count_lead(s, start, true)
}

/// Number of whitespace characters at the start of `s@.skip(start)`.
pub fn count_ws(s: &str, start: usize) -> (n: usize)
    requires
        start <= s@.len(),
    ensures
        n == lead_count(s@.skip(start as int), |c: char| is_ws(c)),
{
    count_lead(s, start, false)
}

/// Counts the leading characters of `s` (from `start` on) that satisfy the
/// predicate given by `hash`: `#` when it is set, whitespace otherwise.
fn count_lead(s: &str, start: usize, hash: bool) -> (n: usize)
    requires
        start <= s@.len(),
    ensures
        hash ==> n == hash_run(s@.skip(start as int)),
        !hash ==> n == lead_count(s@.skip(start as int), |c: char| is_ws(c)),
{
    let len = s.unicode_len();
    let mut i: usize = start;
    while i < len && is_lead_char(s.get_char(i), hash)
        invariant
            len == s@.len(),
            start <= i <= len,
            forall|j: int|
                start <= j < i ==> (if hash {
                    #[trigger] s@[j] == '#'
                } else {
                    is_ws(s@[j])
                }),
        decreases len - i,
    {
        i = i + 1;
    }
    let ghost t = s@.skip(start as int);
    proof {
        if hash {
            assert forall|j: int| 0 <= j < i - start implies (|c: char| c == '#')(
                #[trigger] t[j],
            ) by {
                assert(t[j] == s@[start + j]);
            }
            lemma_lead_count_unique(t, |c: char| c == '#', (i - start) as nat);
        } else {
            assert forall|j: int| 0 <= j < i - start implies (|c: char| is_ws(c))(
                #[trigger] t[j],
            ) by {
                assert(t[j] == s@[start + j]);
            }
            lemma_lead_count_unique(t, |c: char| is_ws(c), (i - start) as nat);
        }
    }
    i - start
}

/// Pieces of `s` between its `'\n'` characters (always at least one).
pub open spec fn split_nl(s: Seq<char>) -> Seq<Seq<char>>
    decreases s.len(),
{
    if s.len() == 0 {
        seq![Seq::empty()]
    } else {
        let p = split_nl(s.drop_last());
        if s.last() == '\n' {
            p.push(Seq::empty())
        } else {
            p.update(p.len() - 1, p.last().push(s.last()))
        }
    }
}

/// A line that ended in `"\r\n"` loses its `'\r'`.
pub open spec fn strip_cr(l: Seq<char>) -> Seq<char> {
    if l.len() > 0 && l.last() == '\r' {
        l.drop_last()
    } else {
        l
    }
}

/// The lines of `s`: split at `'\n'` or `"\r\n"`; the last line ending is
/// optional, so a text ending in a newline has no empty line after it.
pub open spec fn text_lines(s: Seq<char>) -> Seq<Seq<char>> {
    let p = split_nl(s);
    let ended = p.drop_last().map_values(|l: Seq<char>| strip_cr(l));
    if p.last().len() == 0 {
        ended
    } else {
        ended.push(p.last())
    }
}

fn owned_range(s: &str, from: usize, to: usize) -> (r: String)
    requires
        from <= to <= s@.len(),
    ensures
        r@ == s@.subrange(from as int, to as int),
{
    String::from_str(s.substring_char(from, to))
}

/// Splits `s` into its lines, as `text_lines` describes them.
pub fn split_lines(s: &str) -> (r: Vec<String>)
    ensures
        r@.map_values(|l: String| l@) == text_lines(s@),
{
    let len = s.unicode_len();
    let mut done: Vec<String> = Vec::new();
    let mut start: usize = 0;
    let mut i: usize = 0;
    proof {
        assert(s@.take(0) =~= Seq::<char>::empty());
        assert(s@.subrange(0, 0) =~= Seq::<char>::empty());
    }
    while i < len
        invariant
            len == s@.len(),
            start <= i <= len,
            split_nl(s@.take(i as int)).len() == done.len() + 1,
            forall|k: int|
                0 <= k < done.len() ==> (#[trigger] done@[k])@ == strip_cr(
                    split_nl(s@.take(i as int))[k],
                ),
            split_nl(s@.take(i as int)).last() == s@.subrange(start as int, i as int),
        decreases len - i,
    {
        let c = s.get_char(i);
        let ghost old_p = split_nl(s@.take(i as int));
        proof {
            assert(s@.take(i + 1).drop_last() =~= s@.take(i as int));
            assert(s@.take(i + 1).last() == c);
        }
        if c == '\n' {
            let end = if i > start && s.get_char(i - 1) == '\r' {
                i - 1
            } else {
                i
            };
            let piece = owned_range(s, start, end);
            proof {
                let l = s@.subrange(start as int, i as int);
                if end < i {
                    assert(l.last() == '\r');
                    assert(l.drop_last() =~= s@.subrange(start as int, end as int));
                }
            }
            done.push(piece);
            start = i + 1;
            proof {
                assert(s@.subrange(start as int, i + 1) =~= Seq::<char>::empty());
            }
        } else {
            proof {
                assert(s@.subrange(start as int, i + 1) =~= s@.subrange(
                    start as int,
                    i as int,
                ).push(c));
            }
        }
        i = i + 1;
    }
    proof {
        assert(s@.take(len as int) =~= s@);
    }
    let ghost p = split_nl(s@);
    let ghost ended = p.drop_last().map_values(|l: Seq<char>| strip_cr(l));
    proof {
        assert(done@.map_values(|l: String| l@) =~= ended);
    }
    if start < len {
        let last = owned_range(s, start, len);
        done.push(last);
        proof {
            assert(done@.map_values(|l: String| l@) =~= ended.push(p.last()));
        }
    }
    done
}

/// The decimal digit `d` (below ten).
pub open spec fn digit_char(d: nat) -> char {
    seq!['0', '1', '2', '3', '4', '5', '6', '7', '8', '9'][d as int]
}

/// Decimal notation of `n`, without leading zeros.
pub open spec fn decimal(n: nat) -> Seq<char>
    decreases n,
{
    if n < 10 {
        seq![digit_char(n)]
    } else {
        decimal(n / 10).push(digit_char(n % 10))
    }
}

fn digit_str(d: usize) -> (r: &'static str)
    requires
        d < 10,
    ensures
        r@ == seq![digit_char(d as nat)],
{
    proof {
        reveal_strlit("0");
        reveal_strlit("1");
        reveal_strlit("2");
        reveal_strlit("3");
        reveal_strlit("4");
        reveal_strlit("5");
        reveal_strlit("6");
        reveal_strlit("7");
        reveal_strlit("8");
        reveal_strlit("9");
    }
    let r = if d == 0 {
        "0"
    } else if d == 1 {
        "1"
    } else if d == 2 {
        "2"
    } else if d == 3 {
        "3"
    } else if d == 4 {
        "4"
    } else if d == 5 {
        "5"
    } else if d == 6 {
        "6"
    } else if d == 7 {
        "7"
    } else if d == 8 {
        "8"
    } else {
        "9"
    };
    assert(r@ =~= seq![digit_char(d as nat)]);
    r
}

/// The decimal notation of `n`.
pub fn decimal_string(n: usize) -> (r: String)
    ensures
        r@ == decimal(n as nat),
    decreases n,
{
    if n < 10 {
        String::from_str(digit_str(n))
    } else {
        let mut r = decimal_string(n / 10);
        r.append(digit_str(n % 10));
        r
    }
}

} // verus!
