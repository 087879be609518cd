use vstd::prelude::*;
use vstd::std_specs::iter::IteratorSpec;

verus! {

/// Whether `char::is_whitespace` holds of a character other than tab, line
/// feed, carriage return and space.
pub uninterp spec fn other_white(c: char) -> bool;

/// Whether a character is whitespace in the sense of `char::is_whitespace`.
pub open spec fn white(c: char) -> bool {
    c == '\t' || c == '\n' || c == '\r' || c == ' ' || other_white(c)
}

/// Relies on `char::is_whitespace`: the Unicode White_Space property, which
/// tab, line feed, carriage return and space all have.
#[verifier::external_body]
pub(crate) fn is_white(c: char) -> (r: bool)
    ensures
        r == (c == '\t' || c == '\n' || c == '\r' || c == ' ' || other_white(c)),
{
    c.is_whitespace()
}

/// Relies on `String: FromIterator<&char>`: the characters, in order.
#[verifier::external_body]
pub(crate) fn string_of_chars(v: &Vec<char>) -> (r: String)
    ensures
        r@ == v@,
{
    v.iter().collect()
}

/// Relies on `String::push_str`: appends the characters of `t`.
#[verifier::external_body]
pub(crate) fn push_text(s: &mut String, t: &str)
    ensures
        final(s)@ == old(s)@ + t@,
{
    s.push_str(t)
}

/// The characters of a string, in order.
pub fn chars_of(s: &str) -> (v: Vec<char>)
    ensures
        v@ == s@,
{
    let mut v: Vec<char> = Vec::new();
    for c in it: s.chars()
        invariant
            v@ == it.seq().subrange(0, it.index() as int),
            it.seq() == s@,
    {
        v.push(c);
    }
    v
}

/// `s` without its leading whitespace.
pub open spec fn skip_lead(s: Seq<char>) -> Seq<char>
    decreases s.len(),
{
    if s.len() > 0 && white(s[0]) {
        skip_lead(s.drop_first())
    } else {
        s
    }
}

/// `s` without its trailing whitespace.
pub open spec fn skip_trail(s: Seq<char>) -> Seq<char>
    decreases s.len(),
{
    if s.len() > 0 && white(s.last()) {
        skip_trail(s.drop_last())
    } else {
        s
    }
}

/// `s` without leading and trailing whitespace, as `str::trim` gives it.
pub open spec fn trimmed(s: Seq<char>) -> Seq<char> {
    skip_trail(skip_lead(s))
}

/// Copies `s[a..b]`.
pub fn slice_chars(s: &Vec<char>, a: usize, b: usize) -> (r: Vec<char>)
    requires
        a <= b <= s@.len(),
    ensures
        r@ == s@.subrange(a as int, b as int),
{
    let mut r: Vec<char> = Vec::new();
    let mut i: usize = a;
    while i < b
        invariant
            a <= i <= b <= s@.len(),
            r@ == s@.subrange(a as int, i as int),
        decreases b - i,
    {
        r.push(s[i]);
        i = i + 1;
        assert(r@ =~= s@.subrange(a as int, i as int));
    }
    r
}

/// The index of the first character of `s` that is not whitespace.
pub fn lead_end(s: &Vec<char>) -> (a: usize)
    ensures
        a <= s@.len(),
        skip_lead(s@) == s@.subrange(a as int, s@.len() as int),
{
    let n = s.len();
    let mut a: usize = 0;
    assert(s@.subrange(0, n as int) =~= s@);
    while a < n && is_white(s[a])
        invariant
            a <= n == s@.len(),
            skip_lead(s@) == skip_lead(s@.subrange(a as int, n as int)),
        decreases n - a,
    {
        assert(s@.subrange(a as int + 1, n as int) =~= s@.subrange(a as int, n as int).drop_first());
        a = a + 1;
    }
    a
}

/// `s` trimmed of leading and trailing whitespace.
pub fn trim_chars(s: &Vec<char>) -> (r: Vec<char>)
    ensures
        r@ == trimmed(s@),
{
    let n = s.len();
    let a = lead_end(s);
    let mut b: usize = n;
    while b > a && is_white(s[b - 1])
        invariant
            a <= b <= n == s@.len(),
            skip_lead(s@) == s@.subrange(a as int, n as int),
            trimmed(s@) == skip_trail(s@.subrange(a as int, b as int)),
        decreases b - a,
    {
        assert(s@.subrange(a as int, b as int - 1) =~= s@.subrange(a as int, b as int).drop_last());
        b = b - 1;
    }
    slice_chars(s, a, b)
}

pub proof fn lemma_skip_lead_suffix(s: Seq<char>)
    ensures
        skip_lead(s).len() <= s.len(),
        skip_lead(s) == s.subrange(s.len() - skip_lead(s).len(), s.len() as int),
        skip_lead(s).len() == 0 || !white(skip_lead(s)[0]),
    decreases s.len(),
{
    if s.len() > 0 && white(s[0]) {
        lemma_skip_lead_suffix(s.drop_first());
        assert(s.drop_first().subrange(
            s.drop_first().len() - skip_lead(s).len(),
            s.drop_first().len() as int,
        ) =~= s.subrange(s.len() - skip_lead(s).len(), s.len() as int));
    } else {
        assert(s.subrange(0, s.len() as int) =~= s);
    }
}

pub proof fn lemma_skip_trail_prefix(s: Seq<char>)
    ensures
        skip_trail(s).len() <= s.len(),
        skip_trail(s) == s.subrange(0, skip_trail(s).len() as int),
        skip_trail(s).len() == 0 || !white(skip_trail(s).last()),
    decreases s.len(),
{
    if s.len() > 0 && white(s.last()) {
        lemma_skip_trail_prefix(s.drop_last());
        assert(s.drop_last().subrange(0, skip_trail(s).len() as int) =~= s.subrange(
            0,
            skip_trail(s).len() as int,
        ));
    } else {
        assert(s.subrange(0, s.len() as int) =~= s);
    }
}

/// What trimming gives: a contiguous part of the input that trimming leaves
/// as it is, neither starting nor ending with whitespace.
pub proof fn lemma_trimmed(s: Seq<char>)
    ensures
        trimmed(trimmed(s)) == trimmed(s),
        exists|i: int| 0 <= i <= i + trimmed(s).len() <= s.len()
            && #[trigger] s.subrange(i, i + trimmed(s).len()) == trimmed(s),
        trimmed(s).len() == 0 || !white(trimmed(s).last()),
{
    let v = skip_lead(s);
    let u = skip_trail(v);
    lemma_skip_lead_suffix(s);
    lemma_skip_trail_prefix(v);
    if u.len() > 0 {
        assert(u[0] == v[0]);
    }
    assert(skip_lead(u) == u);
    assert(skip_trail(u) == u);
    let i = s.len() - v.len();
    assert(s.subrange(i, i + u.len()) =~= u);
    assert(s.subrange(i, i + trimmed(s).len()) == trimmed(s));
}

/// `l` without the carriage return that ends it, if any.
pub open spec fn strip_cr(l: Seq<char>) -> Seq<char> {
    if l.len() > 0 && l.last() == '\r' {
        l.drop_last()
    } else {
        l
    }
}

/// The index of the first line feed in `s`, or its length.
pub open spec fn first_nl(s: Seq<char>) -> nat
    decreases s.len(),
{
    if s.len() == 0 || s[0] == '\n' {
        0
    } else {
        1 + first_nl(s.drop_first())
    }
}

/// The lines of `s` as `str::lines` gives them: split at each line feed, a
/// carriage return before it dropped, no empty line after a final line feed.
pub open spec fn lines_of(s: Seq<char>) -> Seq<Seq<char>>
    decreases s.len(),
{
    if s.len() == 0 {
        seq![]
    } else if first_nl(s) >= s.len() {
        seq![s]
    } else {
        seq![strip_cr(s.subrange(0, first_nl(s) as int))] + lines_of(
            s.subrange(first_nl(s) as int + 1, s.len() as int),
        )
    }
}

pub proof fn lemma_first_nl(s: Seq<char>, k: int)
    requires
        0 <= k <= s.len(),
        forall|j: int| 0 <= j < k ==> s[j] != '\n',
        k == s.len() || s[k] == '\n',
    ensures
        first_nl(s) == k,
    decreases s.len(),
{
    if s.len() > 0 && s[0] != '\n' {
        lemma_first_nl(s.drop_first(), k - 1);
    }
}

/// The models of a list of character vectors.
pub open spec fn char_lines(v: Seq<Vec<char>>) -> Seq<Seq<char>> {
    v.map_values(|x: Vec<char>| x@)
}

/// Splits text into its lines.
pub fn split_lines(s: &Vec<char>) -> (r: Vec<Vec<char>>)
    ensures
        char_lines(r@) == lines_of(s@),
{
    let n = s.len();
    let mut r: Vec<Vec<char>> = Vec::new();
    let mut start: usize = 0;
    let mut i: usize = 0;
    assert(s@.subrange(0, n as int) =~= s@);
    while i < n
        invariant
            start <= i <= n == s@.len(),
            forall|j: int| start <= j < i ==> s@[j] != '\n',
            char_lines(r@) + lines_of(s@.subrange(start as int, n as int)) == lines_of(s@),
        decreases n - i,
    {
        if s[i] == '\n' {
            let ghost rest = s@.subrange(start as int, n as int);
            proof {
                lemma_first_nl(rest, i - start);
                assert(rest.subrange(0, i - start) =~= s@.subrange(start as int, i as int));
                assert(rest.subrange(i - start + 1, rest.len() as int) =~= s@.subrange(
                    i + 1,
                    n as int,
                ));
            }
            let mut end = i;
            if end > start && s[end - 1] == '\r' {
                end = end - 1;
            }
            let line = slice_chars(s, start, end);
            proof {
                assert(line@ =~= strip_cr(s@.subrange(start as int, i as int)));
            }
            let ghost before = char_lines(r@);
            r.push(line);
            assert(char_lines(r@) =~= before.push(line@));
            assert(char_lines(r@) + lines_of(s@.subrange(i + 1, n as int)) =~= before + lines_of(
                rest,
            ));
            start = i + 1;
        }
        i = i + 1;
    }
    if start < n {
        let ghost rest = s@.subrange(start as int, n as int);
        proof {
            lemma_first_nl(rest, rest.len() as int);
        }
        let line = slice_chars(s, start, n);
        let ghost before = char_lines(r@);
        r.push(line);
        assert(char_lines(r@) =~= before + lines_of(rest));
    } else {
        assert(char_lines(r@) =~= char_lines(r@) + lines_of(s@.subrange(start as int, n as int)));
    }
    r
}

} // verus!
