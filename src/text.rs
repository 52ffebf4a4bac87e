//! Character-level text operations with their mathematical meaning.

use vstd::prelude::*;

verus! {

/// The views of a sequence of strings.
pub open spec fn views(v: Seq<String>) -> Seq<Seq<char>> {
    v.map_values(|s: String| s@)
}

/// `s` without one trailing carriage return.
pub open spec fn strip_cr(s: Seq<char>) -> Seq<char> {
    if s.len() > 0 && s.last() == '\r' {
        s.drop_last()
    } else {
        s
    }
}

/// The lines of `s` that follow the partial line `cur`: a line ends at each
/// `'\n'` (a `'\r'` just before it is dropped), and a final line ending is optional.
pub open spec fn lines_from(s: Seq<char>, cur: Seq<char>) -> Seq<Seq<char>>
    decreases s.len(),
{
    if s.len() == 0 {
        if cur.len() == 0 {
            Seq::empty()
        } else {
            seq![cur]
        }
    } else if s[0] == '\n' {
        seq![strip_cr(cur)] + lines_from(s.drop_first(), Seq::empty())
    } else {
        lines_from(s.drop_first(), cur.push(s[0]))
    }
}

/// The lines of `s`, as `str::lines` yields them.
pub open spec fn lines_of(s: Seq<char>) -> Seq<Seq<char>> {
    lines_from(s, Seq::empty())
}

/// The lines `ls` joined by `'\n'`.
pub open spec fn join_lines(ls: Seq<Seq<char>>) -> Seq<char>
    decreases ls.len(),
{
    if ls.len() == 0 {
        Seq::empty()
    } else if ls.len() == 1 {
        ls[0]
    } else {
        join_lines(ls.drop_last()) + seq!['\n'] + ls.last()
    }
}

/// Relies on `str::chars` collected into a `Vec`: the characters of `s`, in order.
#[verifier::external_body]
pub(crate) fn chars_of(s: &str) -> (r: Vec<char>)
    ensures
        r@ == s@,
{
    s.chars().collect()
}

/// Relies on collecting `char`s into a `String`: it holds exactly those characters.
#[verifier::external_body]
pub(crate) fn string_of(v: &[char]) -> (r: String)
    ensures
        r@ == v@,
{
    v.iter().collect()
}

/// Splits `s` into its lines, as `str::lines` does.
pub fn split_lines(s: &str) -> (r: Vec<String>)
    ensures
        views(r@) == lines_of(s@),
{
    let cs = chars_of(s);
    let mut out: Vec<String> = Vec::new();
    let mut cur: Vec<char> = Vec::new();
    let mut i: usize = 0;
    proof {
        assert(cs@.subrange(0, cs@.len() as int) =~= s@);
        assert(views(out@) =~= Seq::<Seq<char>>::empty());
        assert(views(out@) + lines_of(s@) =~= lines_of(s@));
    }
    while i < cs.len()
        invariant
            cs@ == s@,
            i <= cs.len(),
            views(out@) + lines_from(cs@.subrange(i as int, cs@.len() as int), cur@) == lines_of(s@),
        decreases cs.len() - i,
    {
        let ghost rest = cs@.subrange(i as int, cs@.len() as int);
        assert(rest.drop_first() =~= cs@.subrange(i + 1, cs@.len() as int));
        let c = cs[i];
        if c == '\n' {
            let ghost before = cur@;
            if cur.len() > 0 && cur[cur.len() - 1] == '\r' {
                cur.pop();
            }
            let line = string_of(cur.as_slice());
            proof {
                assert(views(out@.push(line)) =~= views(out@).push(line@));
                assert(cur@ =~= strip_cr(before));
            }
            out.push(line);
            cur = Vec::new();
        } else {
            cur.push(c);
        }
        i = i + 1;
    }
    proof {
        assert(cs@.subrange(i as int, cs@.len() as int) =~= Seq::<char>::empty());
    }
    if cur.len() > 0 {
        let line = string_of(cur.as_slice());
        proof {
            assert(views(out@.push(line)) =~= views(out@).push(line@));
        }
        out.push(line);
    }
    out
}


/// `p` occurs in `t` at position `i`.
pub open spec fn occurs_at(t: Seq<char>, p: Seq<char>, i: int) -> bool {
    0 <= i && i + p.len() <= t.len() && t.subrange(i, i + p.len()) == p
}

/// `p` occurs somewhere in `t`.
pub open spec fn contains_seq(t: Seq<char>, p: Seq<char>) -> bool {
    exists|i: int| occurs_at(t, p, i)
}

/// The position of the first occurrence of `p` in `t`, if any.
pub open spec fn first_occurrence(t: Seq<char>, p: Seq<char>) -> Option<int> {
    if contains_seq(t, p) {
        Some(choose|i: int| occurs_at(t, p, i) && forall|j: int| 0 <= j < i ==> !occurs_at(t, p, j))
    } else {
        None
    }
}

/// Whether `p` occurs in `t` at position `i`.
pub fn occurs_at_exec(t: &[char], p: &[char], i: usize) -> (r: bool)
    ensures
        r == occurs_at(t@, p@, i as int),
{
    if i > t.len() || p.len() > t.len() - i {
        return false;
    }
    let mut k: usize = 0;
    while k < p.len()
        invariant
            i + p.len() <= t.len(),
            k <= p.len(),
            forall|j: int| 0 <= j < k ==> t@[i + j] == p@[j],
        decreases p.len() - k,
    {
        if t[i + k] != p[k] {
            assert(t@.subrange(i as int, i + p.len())[k as int] != p@[k as int]);
            return false;
        }
        k = k + 1;
    }
    assert(t@.subrange(i as int, i + p.len()) =~= p@);
    true
}

/// The position of the first occurrence of `p` in `t`, as `str::find` gives it.
pub fn find_first(t: &[char], p: &[char]) -> (r: Option<usize>)
    ensures
        match r {
            Some(i) => first_occurrence(t@, p@) == Some(i as int) && i + p@.len() <= t@.len(),
            None => first_occurrence(t@, p@) is None,
        },
{
    let mut i: usize = 0;
    while i <= t.len()
        invariant
            forall|j: int| 0 <= j < i ==> !occurs_at(t@, p@, j),
        decreases t.len() + 1 - i,
    {
        if i == t.len() {
            if occurs_at_exec(t, p, i) {
                proof {
                    let w = choose|w: int|
                        occurs_at(t@, p@, w) && forall|j: int| 0 <= j < w ==> !occurs_at(t@, p@, j);
                    assert(occurs_at(t@, p@, i as int) && forall|j: int| 0 <= j < i ==> !occurs_at(t@, p@, j));
                    if w < i {
                    } else if w > i {
                    }
                }
                return Some(i);
            }
            assert forall|j: int| !occurs_at(t@, p@, j) by {
                if 0 <= j < i {
                }
            }
            return None;
        }
        if occurs_at_exec(t, p, i) {
            proof {
                let w = choose|w: int|
                    occurs_at(t@, p@, w) && forall|j: int| 0 <= j < w ==> !occurs_at(t@, p@, j);
                assert(occurs_at(t@, p@, i as int) && forall|j: int| 0 <= j < i ==> !occurs_at(t@, p@, j));
                if w < i {
                } else if w > i {
                }
            }
            return Some(i);
        }
        i = i + 1;
    }
    assert forall|j: int| !occurs_at(t@, p@, j) by {
        if 0 <= j < i {
        }
    }
    None
}

/// Whether `p` occurs in `t`.
pub fn contains_chars(t: &[char], p: &[char]) -> (r: bool)
    ensures
        r == contains_seq(t@, p@),
{
    match find_first(t, p) {
        Some(_) => true,
        None => false,
    }
}

/// Lexicographic order of character sequences by code point, which is the
/// order of `String`s.
pub open spec fn chars_lt(a: Seq<char>, b: Seq<char>) -> bool
    decreases a.len(),
{
    if a.len() == 0 {
        b.len() > 0
    } else if b.len() == 0 {
        false
    } else if a[0] != b[0] {
        a[0] < b[0]
    } else {
        chars_lt(a.drop_first(), b.drop_first())
    }
}

pub proof fn lemma_chars_lt_trichotomy(a: Seq<char>, b: Seq<char>)
    ensures
        !chars_lt(a, a),
        a != b ==> (chars_lt(a, b) <==> !chars_lt(b, a)),
    decreases a.len(),
{
    if a.len() > 0 {
        lemma_chars_lt_trichotomy(a.drop_first(), a.drop_first());
        if b.len() > 0 {
            lemma_chars_lt_trichotomy(a.drop_first(), b.drop_first());
            if a[0] == b[0] && a != b {
                assert(a =~= seq![a[0]] + a.drop_first());
                assert(b =~= seq![b[0]] + b.drop_first());
            }
        }
    } else if b.len() == 0 {
        assert(a =~= b);
    }
}

pub proof fn lemma_chars_lt_transitive(a: Seq<char>, b: Seq<char>, c: Seq<char>)
    requires
        chars_lt(a, b),
        chars_lt(b, c),
    ensures
        chars_lt(a, c),
    decreases a.len(),
{
    if a.len() > 0 && b.len() > 0 && c.len() > 0 {
        if a[0] == b[0] && b[0] == c[0] {
            lemma_chars_lt_transitive(a.drop_first(), b.drop_first(), c.drop_first());
        }
    }
}

/// Compares `a` and `b` in the order `chars_lt`: negative, zero or positive.
pub fn compare_chars(a: &[char], b: &[char]) -> (r: i8)
    ensures
        r < 0 <==> chars_lt(a@, b@),
        r == 0 <==> a@ == b@,
        r > 0 <==> chars_lt(b@, a@),
{
    proof {
        lemma_chars_lt_trichotomy(a@, b@);
        lemma_chars_lt_trichotomy(b@, a@);
    }
    let mut i: usize = 0;
    assert(a@.subrange(0, a@.len() as int) =~= a@);
    assert(b@.subrange(0, b@.len() as int) =~= b@);
    assert(a@.subrange(0, 0) =~= b@.subrange(0, 0));
    while i < a.len() && i < b.len()
        invariant
            i <= a.len(),
            i <= b.len(),
            a@.subrange(0, i as int) == b@.subrange(0, i as int),
            chars_lt(a@, b@) == chars_lt(a@.subrange(i as int, a@.len() as int), b@.subrange(i as int, b@.len() as int)),
            chars_lt(b@, a@) == chars_lt(b@.subrange(i as int, b@.len() as int), a@.subrange(i as int, a@.len() as int)),
        decreases a.len() - i,
    {
        let ghost sa = a@.subrange(i as int, a@.len() as int);
        let ghost sb = b@.subrange(i as int, b@.len() as int);
        assert(sa.drop_first() =~= a@.subrange(i + 1, a@.len() as int));
        assert(sb.drop_first() =~= b@.subrange(i + 1, b@.len() as int));
        if a[i] != b[i] {
            if a[i] < b[i] {
                return -1;
            } else {
                return 1;
            }
        }
        assert(a@.subrange(0, i + 1) =~= a@.subrange(0, i as int).push(a@[i as int]));
        assert(b@.subrange(0, i + 1) =~= b@.subrange(0, i as int).push(b@[i as int]));
        i = i + 1;
    }
    if a.len() == b.len() {
        assert(a@ =~= a@.subrange(0, i as int));
        assert(b@ =~= b@.subrange(0, i as int));
        0
    } else if i == a.len() {
        assert(a@.subrange(i as int, a@.len() as int).len() == 0);
        -1
    } else {
        assert(b@.subrange(i as int, b@.len() as int).len() == 0);
        1
    }
}


/// The characters that `char::is_whitespace` accepts: those with the Unicode
/// `White_Space` property.
pub open spec fn is_space(c: char) -> bool {
    ('\u{9}' <= c && c <= '\u{d}') || c == ' ' || c == '\u{85}' || c == '\u{a0}' || c
        == '\u{1680}' || ('\u{2000}' <= c && c <= '\u{200a}') || c == '\u{2028}' || c
        == '\u{2029}' || c == '\u{202f}' || c == '\u{205f}' || c == '\u{3000}'
}

pub fn is_whitespace(c: char) -> (r: bool)
    ensures
        r == is_space(c),
{
    ('\u{9}' <= c && c <= '\u{d}') || c == ' ' || c == '\u{85}' || c == '\u{a0}' || c
        == '\u{1680}' || ('\u{2000}' <= c && c <= '\u{200a}') || c == '\u{2028}' || c
        == '\u{2029}' || c == '\u{202f}' || c == '\u{205f}' || c == '\u{3000}'
}

/// The longest run of whitespace that text handed to the tokenizer may hold.
/// The tokenizer matches runs of whitespace with a backtracking expression
/// whose stack is bounded, and fails on runs of about a million characters.
pub const MAX_SPACE_RUN: usize = 100000;

/// The `n` characters of `s` from position `i` are all whitespace.
pub open spec fn spaces_from(s: Seq<char>, i: int, n: int) -> bool {
    forall|k: int| i <= k < i + n ==> is_space(#[trigger] s[k])
}

/// `s` holds no run of `MAX_SPACE_RUN` whitespace characters.
pub open spec fn no_long_space_run(s: Seq<char>) -> bool {
    forall|i: int| 0 <= i && i + MAX_SPACE_RUN <= s.len() ==> !#[trigger] spaces_from(s, i, MAX_SPACE_RUN as int)
}

/// Whether `s` holds no run of `MAX_SPACE_RUN` whitespace characters.
pub fn fits_tokenizer(s: &str) -> (r: bool)
    ensures
        r == no_long_space_run(s@),
{
    let cs = chars_of(s);
    let mut run: usize = 0;
    let mut i: usize = 0;
    while i < cs.len()
        invariant
            cs@ == s@,
            i <= cs.len(),
            run <= i,
            run < MAX_SPACE_RUN,
            forall|k: int| i - run <= k < i ==> is_space(#[trigger] cs@[k]),
            run < i ==> !is_space(cs@[i - run - 1]),
            forall|j: int| 0 <= j && j + MAX_SPACE_RUN <= i ==> !#[trigger] spaces_from(cs@, j, MAX_SPACE_RUN as int),
        decreases cs.len() - i,
    {
        let ghost old_run = run;
        if is_whitespace(cs[i]) {
            run = run + 1;
            if run >= MAX_SPACE_RUN {
                proof {
                    let j = i + 1 - MAX_SPACE_RUN;
                    assert(spaces_from(cs@, j, MAX_SPACE_RUN as int));
                }
                return false;
            }
        } else {
            run = 0;
        }
        proof {
            assert forall|j: int| 0 <= j && j + MAX_SPACE_RUN <= i + 1 implies !#[trigger] spaces_from(cs@, j, MAX_SPACE_RUN as int) by {
                if j + MAX_SPACE_RUN == i + 1 {
                    if is_space(cs@[i as int]) {
                        assert(old_run < i);
                        assert(!is_space(cs@[i - old_run - 1]));
                    } else {
                        assert(!is_space(cs@[i as int]));
                    }
                }
            }
        }
        i = i + 1;
    }
    true
}

/// `s` with every whitespace character removed.
pub open spec fn without_spaces(s: Seq<char>) -> Seq<char>
    decreases s.len(),
{
    if s.len() == 0 {
        s
    } else if is_space(s.last()) {
        without_spaces(s.drop_last())
    } else {
        without_spaces(s.drop_last()).push(s.last())
    }
}

pub fn remove_spaces(s: &[char]) -> (r: Vec<char>)
    ensures
        r@ == without_spaces(s@),
{
    let mut r: Vec<char> = Vec::new();
    let mut i: usize = 0;
    assert(s@.subrange(0, 0) =~= Seq::<char>::empty());
    while i < s.len()
        invariant
            i <= s.len(),
            r@ == without_spaces(s@.subrange(0, i as int)),
        decreases s.len() - i,
    {
        assert(s@.subrange(0, i + 1).drop_last() =~= s@.subrange(0, i as int));
        if !is_whitespace(s[i]) {
            r.push(s[i]);
        }
        i = i + 1;
    }
    assert(s@.subrange(0, i as int) =~= s@);
    r
}

/// The characters `s[from..to]`.
pub fn sub_chars(s: &[char], from: usize, to: usize) -> (r: Vec<char>)
    requires
        from <= to <= s.len(),
    ensures
        r@ == s@.subrange(from as int, to as int),
{
    let mut r: Vec<char> = Vec::new();
    let mut i: usize = from;
    while i < to
        invariant
            from <= i <= to <= s.len(),
            r@ == s@.subrange(from as int, i as int),
        decreases to - i,
    {
        r.push(s[i]);
        i = i + 1;
        assert(r@ =~= s@.subrange(from as int, i as int));
    }
    r
}

/// Appends the characters of `s` to `out`.
pub fn push_str_chars(out: &mut Vec<char>, s: &str)
    ensures
        final(out)@ == old(out)@ + s@,
{
    let cs = chars_of(s);
    let mut i: usize = 0;
    while i < cs.len()
        invariant
            i <= cs.len(),
            cs@ == s@,
            out@ == old(out)@ + cs@.subrange(0, i as int),
        decreases cs.len() - i,
    {
        out.push(cs[i]);
        i = i + 1;
        assert(out@ =~= old(out)@ + cs@.subrange(0, i as int));
    }
    assert(cs@.subrange(0, i as int) =~= cs@);
}


/// Joins `ls[from..to]` with `'\n'`.
pub fn join_range(ls: &[String], from: usize, to: usize) -> (r: String)
    requires
        from <= to <= ls.len(),
    ensures
        r@ == join_lines(views(ls@).subrange(from as int, to as int)),
{
    let mut out: Vec<char> = Vec::new();
    let mut i: usize = from;
    let ghost vs = views(ls@);
    assert(vs.subrange(from as int, from as int) =~= Seq::<Seq<char>>::empty());
    while i < to
        invariant
            from <= i <= to <= ls.len(),
            vs == views(ls@),
            out@ == join_lines(vs.subrange(from as int, i as int)),
        decreases to - i,
    {
        let ghost prev = vs.subrange(from as int, i as int);
        let ghost next = vs.subrange(from as int, i + 1);
        assert(next.drop_last() =~= prev);
        if i > from {
            out.push('\n');
        }
        push_str_chars(&mut out, ls[i].as_str());
        proof {
            if i > from {
                assert(out@ =~= join_lines(prev) + seq!['\n'] + vs[i as int]);
            } else {
                assert(out@ =~= vs[i as int]);
            }
        }
        i = i + 1;
    }
    string_of(out.as_slice())
}


/// A name for the lower-case form of a text, as Unicode case mapping gives it.
pub uninterp spec fn lower_of(s: Seq<char>) -> Seq<char>;

/// Relies on `str::to_lowercase`: the result depends on the characters alone.
#[verifier::external_body]
pub(crate) fn to_lowercase(s: &str) -> (r: String)
    ensures
        r@ == lower_of(s@),
{
    s.to_lowercase()
}


/// `s` with every occurrence of `from`, taken left to right without overlap,
/// replaced by `to`, as `str::replace` does for a non-empty `from`.
pub open spec fn replace_all(s: Seq<char>, from: Seq<char>, to: Seq<char>) -> Seq<char>
    decreases s.len(),
{
    if s.len() == 0 || from.len() == 0 {
        s
    } else if from.len() <= s.len() && s.subrange(0, from.len() as int) == from {
        to + replace_all(s.subrange(from.len() as int, s.len() as int), from, to)
    } else {
        seq![s[0]] + replace_all(s.drop_first(), from, to)
    }
}

pub fn replace_chars(s: &[char], from: &[char], to: &[char]) -> (r: Vec<char>)
    requires
        from@.len() > 0,
    ensures
        r@ == replace_all(s@, from@, to@),
{
    let mut out: Vec<char> = Vec::new();
    let mut i: usize = 0;
    assert(s@.subrange(0, s@.len() as int) =~= s@);
    while i < s.len()
        invariant
            i <= s.len(),
            from@.len() > 0,
            out@ + replace_all(s@.subrange(i as int, s@.len() as int), from@, to@) == replace_all(s@, from@, to@),
        decreases s.len() - i,
    {
        let ghost rest = s@.subrange(i as int, s@.len() as int);
        let ghost prev = out@;
        if occurs_at_exec(s, from, i) {
            assert(rest.subrange(0, from@.len() as int) =~= s@.subrange(i as int, i + from@.len()));
            assert(rest.subrange(from@.len() as int, rest.len() as int) =~= s@.subrange(i + from@.len(), s@.len() as int));
            let mut k: usize = 0;
            while k < to.len()
                invariant
                    k <= to.len(),
                    out@ == prev + to@.subrange(0, k as int),
                decreases to.len() - k,
            {
                out.push(to[k]);
                k = k + 1;
                assert(out@ =~= prev + to@.subrange(0, k as int));
            }
            assert(to@.subrange(0, k as int) =~= to@);
            assert(out@ + replace_all(s@.subrange(i + from@.len(), s@.len() as int), from@, to@) =~= prev
                + replace_all(rest, from@, to@));
            i = i + from.len();
        } else {
            assert(!(rest.subrange(0, from@.len() as int) == from@) || from@.len() > rest.len()) by {
                if from@.len() <= rest.len() {
                    assert(rest.subrange(0, from@.len() as int) =~= s@.subrange(i as int, i + from@.len()));
                }
            }
            assert(rest.drop_first() =~= s@.subrange(i + 1, s@.len() as int));
            out.push(s[i]);
            assert(out@ + replace_all(s@.subrange(i + 1, s@.len() as int), from@, to@) =~= prev
                + replace_all(rest, from@, to@));
            i = i + 1;
        }
    }
    assert(out@ + replace_all(s@.subrange(i as int, s@.len() as int), from@, to@) =~= out@);
    out
}

/// `s` ends with `suffix`.
pub open spec fn ends_with(s: Seq<char>, suffix: Seq<char>) -> bool {
    suffix.len() <= s.len() && s.subrange(s.len() - suffix.len(), s.len() as int) == suffix
}

/// `s` with `suffix` removed from its end as often as it is there, as
/// `str::trim_end_matches` does for a non-empty `suffix`.
pub open spec fn trim_suffix_all(s: Seq<char>, suffix: Seq<char>) -> Seq<char>
    decreases s.len(),
{
    if suffix.len() > 0 && ends_with(s, suffix) {
        trim_suffix_all(s.subrange(0, s.len() - suffix.len()), suffix)
    } else {
        s
    }
}

pub fn trim_suffix_chars(s: &[char], suffix: &[char]) -> (r: Vec<char>)
    requires
        suffix@.len() > 0,
    ensures
        r@ == trim_suffix_all(s@, suffix@),
{
    let mut end: usize = s.len();
    assert(s@.subrange(0, end as int) =~= s@);
    while end >= suffix.len() && occurs_at_exec(s, suffix, end - suffix.len())
        invariant
            end <= s.len(),
            suffix@.len() > 0,
            trim_suffix_all(s@.subrange(0, end as int), suffix@) == trim_suffix_all(s@, suffix@),
        decreases end,
    {
        let ghost cur = s@.subrange(0, end as int);
        assert(cur.subrange(cur.len() - suffix@.len(), cur.len() as int) =~= s@.subrange(end - suffix@.len(), end as int));
        assert(cur.subrange(0, cur.len() - suffix@.len()) =~= s@.subrange(0, end - suffix@.len()));
        end = end - suffix.len();
    }
    let ghost cur = s@.subrange(0, end as int);
    if end >= suffix.len() {
        assert(cur.subrange(cur.len() - suffix@.len(), cur.len() as int) =~= s@.subrange(end - suffix@.len(), end as int));
    }
    sub_chars(s, 0, end)
}

} // verus!
