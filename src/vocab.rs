use vstd::prelude::*;
use crate::text::{
    chars_of, char_lines, first_nl, lemma_first_nl, lemma_trimmed, lines_of, split_lines,
    push_text, string_of_chars, strip_cr, trim_chars, trimmed, white,
};

verus! {

/// Failure to assemble the vocabulary files.
#[derive(Clone, Debug)]
pub enum VocabError {
    MissingVocabFile(String),
}

/// Strict lexicographic order on character sequences, by code point: the
/// order of `str` comparison.
pub open spec fn lex_lt(a: Seq<char>, b: Seq<char>) -> bool
    decreases a.len(),
{
    if a.len() == 0 {
        b.len() > 0
    } else if b.len() == 0 {
        false
    } else if a[0] != b[0] {
        a[0] < b[0]
    } else {
        lex_lt(a.drop_first(), b.drop_first())
    }
}

pub proof fn lemma_lex_irreflexive(a: Seq<char>)
    ensures
        !lex_lt(a, a),
    decreases a.len(),
{
    if a.len() > 0 {
        lemma_lex_irreflexive(a.drop_first());
    }
}

pub proof fn lemma_lex_total(a: Seq<char>, b: Seq<char>)
    ensures
        a == b || lex_lt(a, b) || lex_lt(b, a),
    decreases a.len(),
{
    if a.len() > 0 && b.len() > 0 && a[0] == b[0] {
        lemma_lex_total(a.drop_first(), b.drop_first());
        if a.drop_first() == b.drop_first() {
            assert(a.drop_first().len() == b.drop_first().len());
            assert(a.len() == b.len());
            assert(a =~= b) by {
                assert forall|i: int| 0 <= i < a.len() implies a[i] == b[i] by {
                    if i > 0 {
                        assert(a[i] == a.drop_first()[i - 1]);
                        assert(b[i] == b.drop_first()[i - 1]);
                    }
                }
            }
        }
    } else if a.len() == 0 && b.len() == 0 {
        assert(a =~= b);
    }
}

/// Inserting into a sequence adds the element to its set.
pub proof fn lemma_insert_to_set(s: Seq<Seq<char>>, p: int, t: Seq<char>)
    requires
        0 <= p <= s.len(),
    ensures
        s.insert(p, t).to_set() == s.to_set().insert(t),
{
    let s2 = s.insert(p, t);
    assert forall|x: Seq<char>| s2.to_set().contains(x) <==> s.to_set().insert(t).contains(x) by {
        if s2.contains(x) {
            let i = choose|i: int| 0 <= i < s2.len() && s2[i] == x;
            if i < p {
                assert(s[i] == x);
            } else if i > p {
                assert(s[i - 1] == x);
            }
        }
        if s.contains(x) {
            let i = choose|i: int| 0 <= i < s.len() && s[i] == x;
            if i < p {
                assert(s2[i] == x);
            } else {
                assert(s2[i + 1] == x);
            }
        }
        if x == t {
            assert(s2[p] == t);
        }
    }
    assert(s2.to_set() =~= s.to_set().insert(t));
}

pub proof fn lemma_lex_transitive(a: Seq<char>, b: Seq<char>, c: Seq<char>)
    requires
        lex_lt(a, b),
        lex_lt(b, c),
    ensures
        lex_lt(a, c),
    decreases a.len(),
{
    if a.len() > 0 && b.len() > 0 && c.len() > 0 && a[0] == b[0] && b[0] == c[0] {
        lemma_lex_transitive(a.drop_first(), b.drop_first(), c.drop_first());
    }
}

pub proof fn lemma_lex_asymmetric(a: Seq<char>, b: Seq<char>)
    requires
        lex_lt(a, b),
    ensures
        !lex_lt(b, a),
{
    if lex_lt(b, a) {
        lemma_lex_transitive(a, b, a);
        lemma_lex_irreflexive(a);
    }
}

/// Compares two character sequences.
pub fn lex_less(a: &Vec<char>, b: &Vec<char>) -> (r: bool)
    ensures
        r == lex_lt(a@, b@),
{
    let la = a.len();
    let lb = b.len();
    let mut i: usize = 0;
    assert(a@.subrange(0, la as int) =~= a@);
    assert(b@.subrange(0, lb as int) =~= b@);
    while i < la && i < lb && a[i] == b[i]
        invariant
            i <= la == a@.len(),
            i <= lb == b@.len(),
            lex_lt(a@, b@) == lex_lt(
                a@.subrange(i as int, la as int),
                b@.subrange(i as int, lb as int),
            ),
        decreases la - i,
    {
        assert(a@.subrange(i as int + 1, la as int) =~= a@.subrange(i as int, la as int).drop_first());
        assert(b@.subrange(i as int + 1, lb as int) =~= b@.subrange(i as int, lb as int).drop_first());
        i = i + 1;
    }
    if i == la {
        i < lb
    } else if i == lb {
        false
    } else {
        a[i] < b[i]
    }
}

/// Every element strictly below the next: sorted, without repeats.
pub open spec fn sorted_strict(s: Seq<Seq<char>>) -> bool {
    forall|i: int, j: int| 0 <= i < j < s.len() ==> lex_lt(#[trigger] s[i], #[trigger] s[j])
}

/// Whether a trimmed line is a term: not blank and not a comment.
pub open spec fn keep(t: Seq<char>) -> bool {
    t.len() > 0 && t[0] != '#'
}

/// The terms that a list of lines contributes, in order.
pub open spec fn kept_terms(lines: Seq<Seq<char>>) -> Seq<Seq<char>>
    decreases lines.len(),
{
    if lines.len() == 0 {
        seq![]
    } else {
        let t = trimmed(lines.last());
        kept_terms(lines.drop_last()) + if keep(t) {
            seq![t]
        } else {
            seq![]
        }
    }
}

/// The lines of all files, one file after another.
pub open spec fn all_lines(files: Seq<Seq<char>>) -> Seq<Seq<char>>
    decreases files.len(),
{
    if files.len() == 0 {
        seq![]
    } else {
        all_lines(files.drop_last()) + lines_of(files.last())
    }
}

/// The set of terms of a list of vocabulary files.
pub open spec fn vocab_terms(files: Seq<Seq<char>>) -> Set<Seq<char>> {
    kept_terms(all_lines(files)).to_set()
}

/// `out` is the merge of `files`: their terms, each once, in order.
pub open spec fn is_merge(files: Seq<Seq<char>>, out: Seq<Seq<char>>) -> bool {
    sorted_strict(out) && out.to_set() == vocab_terms(files)
}

/// The models of a list of strings.
pub open spec fn texts(v: Seq<String>) -> Seq<Seq<char>> {
    v.map_values(|s: String| s@)
}

/// The text of a merged vocabulary: each term followed by a line feed.
pub open spec fn render(terms: Seq<Seq<char>>) -> Seq<char>
    decreases terms.len(),
{
    if terms.len() == 0 {
        seq![]
    } else {
        render(terms.drop_last()) + terms.last() + seq!['\n']
    }
}

/// Adds `t` to a strictly sorted list unless it is there already.
fn insert_term(out: &mut Vec<Vec<char>>, t: Vec<char>)
    requires
        sorted_strict(char_lines(old(out)@)),
    ensures
        sorted_strict(char_lines(final(out)@)),
        char_lines(final(out)@).to_set() == char_lines(old(out)@).to_set().insert(t@),
{
    let ghost s = char_lines(out@);
    let n = out.len();
    let mut p: usize = 0;
    while p < n && lex_less(&out[p], &t)
        invariant
            p <= n == out@.len(),
            s == char_lines(out@),
            forall|k: int| 0 <= k < p ==> lex_lt(#[trigger] s[k], t@),
        decreases n - p,
    {
        p = p + 1;
    }
    if p < n && !lex_less(&t, &out[p]) {
        proof {
            lemma_lex_total(s[p as int], t@);
        }
        assert(s.to_set().insert(t@) =~= s.to_set());
    } else {
        out.insert(p, t);
        let ghost s2 = char_lines(out@);
        assert(s2 =~= s.insert(p as int, t@));
        assert forall|i: int, j: int| 0 <= i < j < s2.len() implies lex_lt(
            #[trigger] s2[i],
            #[trigger] s2[j],
        ) by {
            if p < n {
                lemma_lex_total(s[p as int], t@);
                lemma_lex_irreflexive(t@);
            }
            if i < p && j > p {
                if j - 1 > p {
                    lemma_lex_transitive(s[i], t@, s[p as int]);
                    lemma_lex_transitive(s[i], s[p as int], s[j - 1]);
                } else {
                    lemma_lex_transitive(s[i], t@, s[p as int]);
                }
            } else if i == p && j > p + 1 {
                lemma_lex_transitive(t@, s[p as int], s[j - 1]);
            }
        }
        proof {
            lemma_insert_to_set(s, p as int, t@);
        }
    }
}

/// Merges vocabulary files: their trimmed lines that are neither blank nor
/// comments, each term once, in lexicographic order.
pub fn merge_vocab(files: &Vec<String>) -> (out: Vec<String>)
    ensures
        is_merge(texts(files@), texts(out@)),
{
    let ghost fs = texts(files@);
    let mut lines: Vec<Vec<char>> = Vec::new();
    let mut f: usize = 0;
    while f < files.len()
        invariant
            f <= files@.len(),
            fs == texts(files@),
            char_lines(lines@) == all_lines(fs.subrange(0, f as int)),
        decreases files@.len() - f,
    {
        let chars = chars_of(files[f].as_str());
        let mut more = split_lines(&chars);
        let ghost before = char_lines(lines@);
        let ghost added = char_lines(more@);
        lines.append(&mut more);
        assert(char_lines(lines@) =~= before + added);
        assert(fs.subrange(0, f as int + 1).drop_last() =~= fs.subrange(0, f as int));
        f = f + 1;
    }
    assert(fs.subrange(0, files@.len() as int) =~= fs);
    let ghost ls = char_lines(lines@);
    let mut sorted: Vec<Vec<char>> = Vec::new();
    let mut i: usize = 0;
    while i < lines.len()
        invariant
            i <= lines@.len(),
            ls == char_lines(lines@),
            sorted_strict(char_lines(sorted@)),
            char_lines(sorted@).to_set() == kept_terms(ls.subrange(0, i as int)).to_set(),
        decreases lines@.len() - i,
    {
        let t = trim_chars(&lines[i]);
        let ghost pre = kept_terms(ls.subrange(0, i as int));
        assert(ls.subrange(0, i as int + 1).drop_last() =~= ls.subrange(0, i as int));
        if t.len() > 0 && t[0] != '#' {
            insert_term(&mut sorted, t);
            proof {
                lemma_insert_to_set(pre, pre.len() as int, t@);
                assert(pre.insert(pre.len() as int, t@) =~= pre + seq![t@]);
            }
        } else {
            assert(pre + seq![] =~= pre);
        }
        i = i + 1;
    }
    assert(ls.subrange(0, lines@.len() as int) =~= ls);
    let mut out: Vec<String> = Vec::new();
    let mut k: usize = 0;
    while k < sorted.len()
        invariant
            k <= sorted@.len(),
            texts(out@) == char_lines(sorted@).subrange(0, k as int),
        decreases sorted@.len() - k,
    {
        let s = string_of_chars(&sorted[k]);
        let ghost before = out@;
        out.push(s);
        assert(out@ == before.push(s));
        assert(s@ == char_lines(sorted@)[k as int]);
        assert(texts(out@) =~= texts(before).push(s@));
        assert(texts(out@) =~= char_lines(sorted@).subrange(0, k as int + 1));
        k = k + 1;
    }
    assert(char_lines(sorted@).subrange(0, sorted@.len() as int) =~= char_lines(sorted@));
    out
}

/// The text of a merged vocabulary, one term per line.
pub fn render_vocab(terms: &Vec<String>) -> (r: String)
    ensures
        r@ == render(texts(terms@)),
{
    let mut r = String::new();
    let mut k: usize = 0;
    while k < terms.len()
        invariant
            k <= terms@.len(),
            r@ == render(texts(terms@).subrange(0, k as int)),
        decreases terms@.len() - k,
    {
        push_text(&mut r, terms[k].as_str());
        push_text(&mut r, "\n");
        proof {
            reveal_strlit("\n");
            let ts = texts(terms@).subrange(0, k as int + 1);
            assert(ts.drop_last() =~= texts(terms@).subrange(0, k as int));
        }
        k = k + 1;
    }
    assert(texts(terms@).subrange(0, terms@.len() as int) =~= texts(terms@));
    r
}

/// Which paths to merge: the library vocabulary when it is wanted and
/// exists, then the caller's own file, which must exist.
pub fn vocab_sources(
    library: &String,
    use_library: bool,
    library_exists: bool,
    user: &Option<String>,
    user_exists: bool,
) -> (r: Result<Vec<String>, VocabError>)
    ensures
        match r {
            Ok(v) => {
                &&& !(user is Some && !user_exists)
                &&& texts(v@) == (if use_library && library_exists {
                    seq![library@]
                } else {
                    seq![]
                }) + match user {
                    Some(u) => seq![u@],
                    None => seq![],
                }
            },
            Err(e) => user is Some && !user_exists && e == VocabError::MissingVocabFile(
                user->0,
            ),
        },
{
    let mut v: Vec<String> = Vec::new();
    if use_library && library_exists {
        v.push(library.clone());
    }
    match user {
        Some(u) => {
            if !user_exists {
                return Err(VocabError::MissingVocabFile(u.clone()));
            }
            let ghost before = v@;
            v.push(u.clone());
            assert(texts(v@) =~= texts(before) + seq![u@]);
        },
        None => {},
    }
    assert(texts(v@) =~= (if use_library && library_exists {
        seq![library@]
    } else {
        seq![]
    }) + match user {
        Some(u) => seq![u@],
        None => seq![],
    });
    Ok(v)
}

pub proof fn lemma_kept_terms_concat(x: Seq<Seq<char>>, y: Seq<Seq<char>>)
    ensures
        kept_terms(x + y) == kept_terms(x) + kept_terms(y),
    decreases y.len(),
{
    if y.len() == 0 {
        assert(x + y =~= x);
        assert(kept_terms(x) + kept_terms(y) =~= kept_terms(x));
    } else {
        assert((x + y).drop_last() =~= x + y.drop_last());
        lemma_kept_terms_concat(x, y.drop_last());
        let t = trimmed(y.last());
        let tail = if keep(t) {
            seq![t]
        } else {
            seq![]
        };
        assert(kept_terms(x + y) =~= kept_terms(x) + kept_terms(y.drop_last()) + tail);
        assert(kept_terms(x) + kept_terms(y.drop_last()) + tail =~= kept_terms(x) + kept_terms(y));
    }
}

/// A term belongs to a list of files exactly when it belongs to one of them.
pub proof fn lemma_terms_by_file(files: Seq<Seq<char>>, t: Seq<char>)
    ensures
        kept_terms(all_lines(files)).contains(t) <==> exists|f: int|
            0 <= f < files.len() && #[trigger] kept_terms(lines_of(files[f])).contains(t),
    decreases files.len(),
{
    if files.len() > 0 {
        let front = files.drop_last();
        lemma_terms_by_file(front, t);
        lemma_kept_terms_concat(all_lines(front), lines_of(files.last()));
        let a = kept_terms(all_lines(front));
        let b = kept_terms(lines_of(files.last()));
        if (a + b).contains(t) {
            let i = choose|i: int| 0 <= i < (a + b).len() && (a + b)[i] == t;
            if i < a.len() {
                assert(a[i] == t);
                let f = choose|f: int|
                    0 <= f < front.len() && #[trigger] kept_terms(lines_of(front[f])).contains(t);
                assert(files[f] == front[f]);
            } else {
                assert(b[i - a.len()] == t);
                assert(kept_terms(lines_of(files[files.len() - 1])).contains(t));
            }
        }
        if exists|f: int| 0 <= f < files.len() && #[trigger] kept_terms(lines_of(files[f])).contains(t) {
            let f = choose|f: int|
                0 <= f < files.len() && #[trigger] kept_terms(lines_of(files[f])).contains(t);
            if f < front.len() {
                assert(front[f] == files[f]);
                assert(a.contains(t));
                let i = choose|i: int| 0 <= i < a.len() && a[i] == t;
                assert((a + b)[i] == t);
            } else {
                let i = choose|i: int| 0 <= i < b.len() && b[i] == t;
                assert((a + b)[a.len() + i] == t);
            }
        }
    }
}

/// Two strictly sorted lists with the same elements are the same list.
pub proof fn lemma_sorted_unique(s1: Seq<Seq<char>>, s2: Seq<Seq<char>>)
    requires
        sorted_strict(s1),
        sorted_strict(s2),
        s1.to_set() == s2.to_set(),
    ensures
        s1 == s2,
    decreases s1.len(),
{
    if s1.len() == 0 {
        if s2.len() > 0 {
            assert(s2.to_set().contains(s2[0]));
        }
        assert(s1 =~= s2);
    } else {
        assert(s1.to_set().contains(s1[0]));
        assert(s2.contains(s1[0]));
        assert(s2.len() > 0);
        assert(s2.to_set().contains(s2[0]));
        assert(s1.contains(s2[0]));
        let j = choose|j: int| 0 <= j < s2.len() && s2[j] == s1[0];
        let i = choose|i: int| 0 <= i < s1.len() && s1[i] == s2[0];
        if s1[0] != s2[0] {
            assert(j != 0 && i != 0);
            assert(lex_lt(s2[0], s2[j]));
            assert(lex_lt(s1[0], s1[i]));
            lemma_lex_asymmetric(s1[0], s2[0]);
        }
        let d1 = s1.drop_first();
        let d2 = s2.drop_first();
        assert forall|x: Seq<char>| d1.to_set().contains(x) <==> d2.to_set().contains(x) by {
            if d1.contains(x) {
                let k = choose|k: int| 0 <= k < d1.len() && d1[k] == x;
                assert(s1[k + 1] == x);
                assert(lex_lt(s1[0], x));
                lemma_lex_irreflexive(x);
                assert(s2.to_set().contains(x));
                let m = choose|m: int| 0 <= m < s2.len() && s2[m] == x;
                assert(m != 0);
                assert(d2[m - 1] == x);
            }
            if d2.contains(x) {
                let k = choose|k: int| 0 <= k < d2.len() && d2[k] == x;
                assert(s2[k + 1] == x);
                assert(lex_lt(s2[0], x));
                lemma_lex_irreflexive(x);
                assert(s1.to_set().contains(x));
                let m = choose|m: int| 0 <= m < s1.len() && s1[m] == x;
                assert(m != 0);
                assert(d1[m - 1] == x);
            }
        }
        assert(d1.to_set() =~= d2.to_set());
        lemma_sorted_unique(d1, d2);
        assert(s1.len() == s2.len());
        assert forall|k: int| 0 <= k < s1.len() implies s1[k] == s2[k] by {
            if k > 0 {
                assert(s1[k] == d1[k - 1]);
                assert(s2[k] == d2[k - 1]);
            }
        }
        assert(s1 =~= s2);
    }
}

/// Merging does not depend on the order of the files: any two lists of
/// files with the same contents, in whatever order and however often each
/// is given, merge to the same terms in the same order.
pub proof fn lemma_merge_order_independent(
    a: Seq<Seq<char>>,
    b: Seq<Seq<char>>,
    ra: Seq<Seq<char>>,
    rb: Seq<Seq<char>>,
)
    requires
        a.to_set() == b.to_set(),
        is_merge(a, ra),
        is_merge(b, rb),
    ensures
        ra == rb,
{
    assert forall|t: Seq<char>| vocab_terms(a).contains(t) <==> vocab_terms(b).contains(t) by {
        lemma_terms_by_file(a, t);
        lemma_terms_by_file(b, t);
        if exists|f: int| 0 <= f < a.len() && #[trigger] kept_terms(lines_of(a[f])).contains(t) {
            let f = choose|f: int|
                0 <= f < a.len() && #[trigger] kept_terms(lines_of(a[f])).contains(t);
            assert(a.to_set().contains(a[f]));
            assert(b.contains(a[f]));
            let g = choose|g: int| 0 <= g < b.len() && b[g] == a[f];
            assert(kept_terms(lines_of(b[g])).contains(t));
        }
        if exists|f: int| 0 <= f < b.len() && #[trigger] kept_terms(lines_of(b[f])).contains(t) {
            let f = choose|f: int|
                0 <= f < b.len() && #[trigger] kept_terms(lines_of(b[f])).contains(t);
            assert(b.to_set().contains(b[f]));
            assert(a.contains(b[f]));
            let g = choose|g: int| 0 <= g < a.len() && a[g] == b[f];
            assert(kept_terms(lines_of(a[g])).contains(t));
        }
    }
    assert(vocab_terms(a) =~= vocab_terms(b));
    lemma_sorted_unique(ra, rb);
}

pub proof fn lemma_first_nl_bound(s: Seq<char>)
    ensures
        first_nl(s) <= s.len(),
        forall|j: int| 0 <= j < first_nl(s) ==> s[j] != '\n',
        first_nl(s) < s.len() ==> s[first_nl(s) as int] == '\n',
    decreases s.len(),
{
    if s.len() > 0 && s[0] != '\n' {
        lemma_first_nl_bound(s.drop_first());
        assert forall|j: int| 0 <= j < first_nl(s) implies s[j] != '\n' by {
            if j > 0 {
                assert(s[j] == s.drop_first()[j - 1]);
            }
        }
    }
}

/// No line holds a line feed.
pub proof fn lemma_lines_no_nl(s: Seq<char>)
    ensures
        forall|k: int, j: int|
            0 <= k < lines_of(s).len() && 0 <= j < lines_of(s)[k].len() ==> #[trigger] lines_of(
                s,
            )[k][j] != '\n',
    decreases s.len(),
{
    if s.len() > 0 {
        lemma_first_nl_bound(s);
        if first_nl(s) < s.len() {
            let rest = s.subrange(first_nl(s) as int + 1, s.len() as int);
            lemma_lines_no_nl(rest);
            let head = strip_cr(s.subrange(0, first_nl(s) as int));
            assert forall|k: int, j: int|
                0 <= k < lines_of(s).len() && 0 <= j < lines_of(s)[k].len() implies #[trigger] lines_of(
                s,
            )[k][j] != '\n' by {
                if k == 0 {
                    assert(lines_of(s)[k] == head);
                    assert(head[j] == s[j]);
                } else {
                    assert(lines_of(s)[k] == lines_of(rest)[k - 1]);
                }
            }
        }
    }
}

/// No line of a list of files holds a line feed.
pub proof fn lemma_all_lines_no_nl(files: Seq<Seq<char>>)
    ensures
        forall|k: int, j: int|
            0 <= k < all_lines(files).len() && 0 <= j < all_lines(files)[k].len()
                ==> #[trigger] all_lines(files)[k][j] != '\n',
    decreases files.len(),
{
    if files.len() > 0 {
        lemma_all_lines_no_nl(files.drop_last());
        lemma_lines_no_nl(files.last());
        let a = all_lines(files.drop_last());
        let b = lines_of(files.last());
        assert forall|k: int, j: int|
            0 <= k < all_lines(files).len() && 0 <= j < all_lines(files)[k].len()
                implies #[trigger] all_lines(files)[k][j] != '\n' by {
            if k < a.len() {
                assert(all_lines(files)[k] == a[k]);
            } else {
                assert(all_lines(files)[k] == b[k - a.len()]);
            }
        }
    }
}

/// What a term is: kept, already trimmed, and free of line feeds where the
/// lines are.
pub proof fn lemma_kept_shape(lines: Seq<Seq<char>>, t: Seq<char>)
    requires
        kept_terms(lines).contains(t),
        forall|k: int, j: int|
            0 <= k < lines.len() && 0 <= j < lines[k].len() ==> #[trigger] lines[k][j] != '\n',
    ensures
        keep(t),
        trimmed(t) == t,
        !white(t.last()),
        forall|j: int| 0 <= j < t.len() ==> t[j] != '\n',
    decreases lines.len(),
{
    let l = lines.last();
    let u = trimmed(l);
    let front = lines.drop_last();
    let tail = if keep(u) {
        seq![u]
    } else {
        seq![]
    };
    let i = choose|i: int| 0 <= i < kept_terms(lines).len() && kept_terms(lines)[i] == t;
    if i < kept_terms(front).len() {
        assert(kept_terms(front)[i] == t);
        assert forall|k: int, j: int|
            0 <= k < front.len() && 0 <= j < front[k].len() implies #[trigger] front[k][j]
            != '\n' by {
            assert(front[k] == lines[k]);
        }
        lemma_kept_shape(front, t);
    } else {
        assert(t == u && keep(u));
        lemma_trimmed(l);
        let p = choose|p: int|
            0 <= p <= p + trimmed(l).len() <= l.len() && #[trigger] l.subrange(
                p,
                p + trimmed(l).len(),
            ) == trimmed(l);
        assert forall|j: int| 0 <= j < t.len() implies t[j] != '\n' by {
            assert(t[j] == l[p + j]);
            assert(lines[lines.len() - 1][p + j] != '\n');
        }
    }
}

pub proof fn lemma_render_front(ts: Seq<Seq<char>>)
    requires
        ts.len() > 0,
    ensures
        render(ts) == ts[0] + seq!['\n'] + render(ts.drop_first()),
    decreases ts.len(),
{
    if ts.len() == 1 {
        assert(ts.drop_last() =~= seq![]);
        assert(ts.drop_first() =~= seq![]);
        assert(render(ts) =~= ts[0] + seq!['\n'] + render(ts.drop_first()));
    } else {
        lemma_render_front(ts.drop_last());
        assert(ts.drop_last().drop_first() =~= ts.drop_first().drop_last());
        assert(render(ts) =~= ts[0] + seq!['\n'] + render(ts.drop_first()));
    }
}

/// Reading back the lines of a rendered vocabulary gives its terms.
pub proof fn lemma_lines_of_render(ts: Seq<Seq<char>>)
    requires
        forall|k: int, j: int|
            0 <= k < ts.len() && 0 <= j < ts[k].len() ==> #[trigger] ts[k][j] != '\n',
        forall|k: int| 0 <= k < ts.len() ==> #[trigger] ts[k].len() > 0 && ts[k].last() != '\r',
    ensures
        lines_of(render(ts)) == ts,
    decreases ts.len(),
{
    if ts.len() == 0 {
        assert(render(ts) =~= seq![]);
        assert(lines_of(render(ts)) =~= ts);
    } else {
        lemma_render_front(ts);
        let t = ts[0];
        let rest = ts.drop_first();
        let s = render(ts);
        assert forall|k: int, j: int|
            0 <= k < rest.len() && 0 <= j < rest[k].len() implies #[trigger] rest[k][j] != '\n' by {
            assert(rest[k] == ts[k + 1]);
        }
        assert forall|k: int| 0 <= k < rest.len() implies #[trigger] rest[k].len() > 0
            && rest[k].last() != '\r' by {
            assert(rest[k] == ts[k + 1]);
        }
        lemma_lines_of_render(rest);
        assert forall|j: int| 0 <= j < t.len() implies s[j] != '\n' by {
            assert(s[j] == t[j]);
            assert(ts[0][j] != '\n');
        }
        assert(s[t.len() as int] == '\n');
        lemma_first_nl(s, t.len() as int);
        assert(s.subrange(0, t.len() as int) =~= t);
        assert(s.subrange(t.len() as int + 1, s.len() as int) =~= render(rest));
        assert(lines_of(s) =~= seq![t] + rest);
        assert(lines_of(s) =~= ts);
    }
}

/// Terms that are kept and already trimmed are their own terms.
pub proof fn lemma_kept_terms_fixed(ts: Seq<Seq<char>>)
    requires
        forall|k: int| 0 <= k < ts.len() ==> #[trigger] trimmed(ts[k]) == ts[k] && keep(ts[k]),
    ensures
        kept_terms(ts) == ts,
    decreases ts.len(),
{
    if ts.len() == 0 {
        assert(kept_terms(ts) =~= ts);
    } else {
        let front = ts.drop_last();
        assert forall|k: int| 0 <= k < front.len() implies #[trigger] trimmed(front[k]) == front[k]
            && keep(front[k]) by {
            assert(front[k] == ts[k]);
        }
        lemma_kept_terms_fixed(front);
        assert(trimmed(ts[ts.len() - 1]) == ts[ts.len() - 1]);
        assert(kept_terms(ts) =~= ts);
    }
}

/// Merging a merged vocabulary once more gives it back unchanged.
pub proof fn lemma_merge_idempotent(
    files: Seq<Seq<char>>,
    out: Seq<Seq<char>>,
    again: Seq<Seq<char>>,
)
    requires
        is_merge(files, out),
        is_merge(seq![render(out)], again),
    ensures
        again == out,
{
    lemma_all_lines_no_nl(files);
    assert forall|k: int| 0 <= k < out.len() implies {
        &&& keep(#[trigger] out[k])
        &&& trimmed(out[k]) == out[k]
        &&& !white(out[k].last())
        &&& forall|j: int| 0 <= j < out[k].len() ==> out[k][j] != '\n'
    } by {
        assert(out.to_set().contains(out[k]));
        lemma_kept_shape(all_lines(files), out[k]);
    }
    lemma_lines_of_render(out);
    lemma_kept_terms_fixed(out);
    let one = seq![render(out)];
    assert(one.drop_last() =~= Seq::<Seq<char>>::empty());
    assert(all_lines(one.drop_last()) == Seq::<Seq<char>>::empty());
    assert(one.last() == render(out));
    assert(all_lines(one) =~= lines_of(render(out)));
    lemma_sorted_unique(again, out);
}

} // verus!
