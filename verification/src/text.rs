//! Lexicographic ordering of strings by character code, used to give the
//! document's schema map a stable order.

use vstd::prelude::*;

verus! {

/// Lexicographic order on character sequences, by code point: the empty
/// sequence first, then by first differing character.
pub open spec fn lex_leq(a: Seq<char>, b: Seq<char>) -> bool
    decreases a.len(),
{
    if a.len() == 0 {
        true
    } else if b.len() == 0 {
        false
    } else if (a[0] as u32) < (b[0] as u32) {
        true
    } else if (a[0] as u32) > (b[0] as u32) {
        false
    } else {
        lex_leq(a.drop_first(), b.drop_first())
    }
}

/// The order is total.
pub proof fn lemma_lex_total(a: Seq<char>, b: Seq<char>)
    ensures
        lex_leq(a, b) || lex_leq(b, a),
    decreases a.len(),
{
    if a.len() == 0 || b.len() == 0 {
    } else if (a[0] as u32) == (b[0] as u32) {
        lemma_lex_total(a.drop_first(), b.drop_first());
    }
}

/// The order is antisymmetric: mutually ordered sequences are equal.
pub proof fn lemma_lex_antisymmetric(a: Seq<char>, b: Seq<char>)
    requires
        lex_leq(a, b),
        lex_leq(b, a),
    ensures
        a == b,
    decreases a.len(),
{
    if a.len() == 0 {
        assert(b.len() == 0);
        assert(a =~= b);
    } else {
        assert(b.len() > 0);
        assert((a[0] as u32) == (b[0] as u32));
        assert(a[0] == b[0]) by {
            vstd::utf8::char_u32_cast(a[0], a[0] as u32);
            vstd::utf8::char_u32_cast(b[0], b[0] as u32);
        }
        lemma_lex_antisymmetric(a.drop_first(), b.drop_first());
        assert(a =~= b) by {
            assert(forall|i: int|
                0 < i < a.len() ==> a[i] == a.drop_first()[i - 1] && b[i] == b.drop_first()[i
                    - 1]);
        }
    }
}

/// The order is transitive.
pub proof fn lemma_lex_transitive(a: Seq<char>, b: Seq<char>, c: Seq<char>)
    requires
        lex_leq(a, b),
        lex_leq(b, c),
    ensures
        lex_leq(a, c),
    decreases a.len(),
{
    if a.len() == 0 || b.len() == 0 || c.len() == 0 {
    } else if (a[0] as u32) == (b[0] as u32) && (b[0] as u32) == (c[0] as u32) {
        lemma_lex_transitive(a.drop_first(), b.drop_first(), c.drop_first());
    }
}

/// Whether `a` comes no later than `b` in lexicographic order.
pub fn str_leq(a: &str, b: &str) -> (r: bool)
    ensures
        r == lex_leq(a@, b@),
{
    let alen = a.unicode_len();
    let blen = b.unicode_len();
    let mut i: usize = 0;
    proof {
        assert(a@.skip(0) =~= a@);
        assert(b@.skip(0) =~= b@);
    }
    while i < alen && i < blen
        invariant
            0 <= i <= alen,
            0 <= i <= blen,
            alen == a@.len(),
            blen == b@.len(),
            lex_leq(a@, b@) == lex_leq(a@.skip(i as int), b@.skip(i as int)),
        decreases alen - i,
    {
        let ca = a.get_char(i);
        let cb = b.get_char(i);
        proof {
            assert(a@.skip(i as int)[0] == a@[i as int]);
            assert(b@.skip(i as int)[0] == b@[i as int]);
        }
        if (ca as u32) < (cb as u32) {
            proof {
                assert(lex_leq(a@.skip(i as int), b@.skip(i as int)));
            }
            return true;
        }
        if (ca as u32) > (cb as u32) {
            proof {
                assert(a@.skip(i as int).len() > 0);
                assert(!lex_leq(a@.skip(i as int), b@.skip(i as int)));
            }
            return false;
        }
        proof {
            assert(a@.skip(i as int).drop_first() =~= a@.skip(i + 1));
            assert(b@.skip(i as int).drop_first() =~= b@.skip(i + 1));
            assert(lex_leq(a@.skip(i as int), b@.skip(i as int)) == lex_leq(
                a@.skip(i + 1),
                b@.skip(i + 1),
            ));
        }
        i += 1;
    }
    if i >= alen {
        proof {
            assert(a@.skip(i as int).len() == 0);
            assert(lex_leq(a@.skip(i as int), b@.skip(i as int)));
        }
        true
    } else {
        proof {
            assert(b@.skip(i as int).len() == 0);
            assert(a@.skip(i as int).len() > 0);
            assert(!lex_leq(a@.skip(i as int), b@.skip(i as int)));
        }
        false
    }
}


/// The character of one decimal digit.
pub open spec fn digit_char(d: nat) -> char {
    if d == 0 {
        '0'
    } else if d == 1 {
        '1'
    } else if d == 2 {
        '2'
    } else if d == 3 {
        '3'
    } else if d == 4 {
        '4'
    } else if d == 5 {
        '5'
    } else if d == 6 {
        '6'
    } else if d == 7 {
        '7'
    } else if d == 8 {
        '8'
    } else {
        '9'
    }
}

/// The decimal digits of a number, most significant first.
pub open spec fn dec_digits(n: nat) -> Seq<char>
    decreases n,
{
    if n < 10 {
        seq![digit_char(n)]
    } else {
        dec_digits(n / 10).push(digit_char(n % 10))
    }
}

/// One decimal digit as text.
fn digit_str(d: usize) -> (r: &'static str)
    requires
        d < 10,
    ensures
        r@ =~= seq![digit_char(d as nat)],
{
    proof {
        reveal_strlit("0");
        reveal_strlit("1");
        reveal_strlit("2");
        reveal_strlit("3");
        reveal_strlit("4");
        reveal_strlit("5");
        reveal_strlit("6");
        reveal_strlit("7");
        reveal_strlit("8");
        reveal_strlit("9");
    }
    if d == 0 {
        "0"
    } else if d == 1 {
        "1"
    } else if d == 2 {
        "2"
    } else if d == 3 {
        "3"
    } else if d == 4 {
        "4"
    } else if d == 5 {
        "5"
    } else if d == 6 {
        "6"
    } else if d == 7 {
        "7"
    } else if d == 8 {
        "8"
    } else {
        "9"
    }
}

/// A number written in decimal.
pub fn usize_to_string(n: usize) -> (r: String)
    ensures
        r@ == dec_digits(n as nat),
    decreases n,
{
    if n < 10 {
        let mut s = String::new();
        s.append(digit_str(n));
        proof {
            assert(s@ =~= seq![digit_char(n as nat)]);
        }
        s
    } else {
        let mut s = usize_to_string(n / 10);
        s.append(digit_str(n % 10));
        proof {
            assert(s@ =~= dec_digits((n / 10) as nat).push(digit_char((n % 10) as nat)));
        }
        s
    }
}


/// Whether `pre` is a prefix of `s`.
pub open spec fn is_prefix_of(pre: Seq<char>, s: Seq<char>) -> bool {
    pre.len() <= s.len() && s.subrange(0, pre.len() as int) == pre
}

/// Whether `suf` is a suffix of `s`.
pub open spec fn is_suffix_of(suf: Seq<char>, s: Seq<char>) -> bool {
    suf.len() <= s.len() && s.subrange(s.len() - suf.len(), s.len() as int) == suf
}

/// Whether `pat` occurs in `s` as a contiguous run.
pub open spec fn has_substring(s: Seq<char>, pat: Seq<char>) -> bool {
    exists|i: int| 0 <= i <= s.len() - pat.len() && #[trigger] s.subrange(i, i + pat.len()) == pat
}

/// Whether `pre` is a prefix of `s`.
pub fn str_is_prefix(pre: &str, s: &str) -> (r: bool)
    ensures
        r == is_prefix_of(pre@, s@),
{
    let m = pre.unicode_len();
    let n = s.unicode_len();
    if m > n {
        return false;
    }
    let mut i: usize = 0;
    while i < m
        invariant
            m == pre@.len(),
            n == s@.len(),
            m <= n,
            0 <= i <= m,
            forall|j: int| 0 <= j < i ==> s@[j] == pre@[j],
        decreases m - i,
    {
        if s.get_char(i) != pre.get_char(i) {
            proof {
                if is_prefix_of(pre@, s@) {
                    assert(s@.subrange(0, m as int)[i as int] == pre@[i as int]);
                }
            }
            return false;
        }
        i += 1;
    }
    proof {
        assert(s@.subrange(0, m as int) =~= pre@);
    }
    true
}

/// Whether `suf` is a suffix of `s`.
pub fn str_ends_with(s: &str, suf: &str) -> (r: bool)
    ensures
        r == is_suffix_of(suf@, s@),
{
    let m = suf.unicode_len();
    let n = s.unicode_len();
    if m > n {
        return false;
    }
    let start = n - m;
    let mut i: usize = 0;
    while i < m
        invariant
            m == suf@.len(),
            n == s@.len(),
            m <= n,
            start == n - m,
            0 <= i <= m,
            forall|j: int| 0 <= j < i ==> s@[start + j] == suf@[j],
        decreases m - i,
    {
        if s.get_char(start + i) != suf.get_char(i) {
            proof {
                if is_suffix_of(suf@, s@) {
                    assert(s@.subrange(n - m, n as int)[i as int] == suf@[i as int]);
                }
            }
            return false;
        }
        i += 1;
    }
    proof {
        assert(s@.subrange(n - m, n as int) =~= suf@);
    }
    true
}

/// Whether `s` matches `pat` at position `at`.
fn matches_at(s: &str, pat: &str, at: usize) -> (r: bool)
    requires
        at + pat@.len() <= s@.len(),
    ensures
        r == (s@.subrange(at as int, at + pat@.len()) == pat@),
{
    let m = pat.unicode_len();
    let n = s.unicode_len();
    let mut i: usize = 0;
    while i < m
        invariant
            m == pat@.len(),
            n == s@.len(),
            at + m <= n,
            0 <= i <= m,
            forall|j: int| 0 <= j < i ==> s@[at + j] == pat@[j],
        decreases m - i,
    {
        if s.get_char(at + i) != pat.get_char(i) {
            proof {
                if s@.subrange(at as int, at + pat@.len()) == pat@ {
                    assert(s@.subrange(at as int, at + pat@.len())[i as int] == pat@[i as int]);
                }
            }
            return false;
        }
        i += 1;
    }
    proof {
        assert(s@.subrange(at as int, at + pat@.len()) =~= pat@);
    }
    true
}

/// Whether `pat` occurs in `s` as a contiguous run.
pub fn str_contains(s: &str, pat: &str) -> (r: bool)
    ensures
        r == has_substring(s@, pat@),
{
    let m = pat.unicode_len();
    let n = s.unicode_len();
    if m == 0 {
        proof {
            assert(s@.subrange(0, 0 + pat@.len() as int) =~= pat@);
            assert(s@.subrange(0, 0 + pat@.len() as int) == pat@);
        }
        return true;
    }
    if m > n {
        proof {
            if has_substring(s@, pat@) {
                let w = choose|w: int|
                    0 <= w <= s@.len() - pat@.len() && #[trigger] s@.subrange(w, w + pat@.len())
                        == pat@;
                assert(w <= s@.len() - pat@.len());
            }
        }
        return false;
    }
    let mut i: usize = 0;
    while i <= n - m
        invariant
            m == pat@.len(),
            n == s@.len(),
            1 <= m <= n,
            0 <= i <= n - m + 1,
            forall|j: int| 0 <= j < i ==> #[trigger] s@.subrange(j, j + pat@.len()) != pat@,
        decreases n - m + 1 - i,
    {
        if matches_at(s, pat, i) {
            return true;
        }
        i += 1;
    }
    proof {
        if has_substring(s@, pat@) {
            let w = choose|w: int|
                0 <= w <= s@.len() - pat@.len() && #[trigger] s@.subrange(w, w + pat@.len())
                    == pat@;
            assert(s@.subrange(w, w + pat@.len()) != pat@);
        }
    }
    false
}


/// Whether two strings hold the same characters.
pub fn str_eq(a: &str, b: &str) -> (r: bool)
    ensures
        r == (a@ == b@),
{
    let m = b.unicode_len();
    let n = a.unicode_len();
    if m != n {
        return false;
    }
    if matches_at(a, b, 0) {
        proof {
            assert(a@.subrange(0, 0 + b@.len() as int) =~= a@);
        }
        true
    } else {
        proof {
            if a@ == b@ {
                assert(a@.subrange(0, 0 + b@.len() as int) =~= b@);
            }
        }
        false
    }
}


/// A character the docstring normalizer strips at line ends.
pub open spec fn is_doc_space(c: char) -> bool {
    c == ' ' || c == '\t' || c == '\r' || c == '\n'
}

/// Text with leading and trailing spacing removed.
pub open spec fn trimmed(s: Seq<char>) -> Seq<char>
    decreases s.len(),
{
    if s.len() == 0 {
        s
    } else if is_doc_space(s[0]) {
        trimmed(s.drop_first())
    } else if is_doc_space(s.last()) {
        trimmed(s.drop_last())
    } else {
        s
    }
}

/// Whether the normalizer strips this character.
fn doc_space(c: char) -> (r: bool)
    ensures
        r == is_doc_space(c),
{
    c == ' ' || c == '\t' || c == '\r' || c == '\n'
}

/// Remove leading and trailing spacing.
pub fn trim_spaces(s: &str) -> (r: String)
    ensures
        r@ == trimmed(s@),
    decreases s@.len(),
{
    let n = s.unicode_len();
    if n == 0 {
        let r = String::new();
        proof {
            assert(r@ =~= s@);
        }
        return r;
    }
    if doc_space(s.get_char(0)) {
        let rest = s.substring_char(1, n);
        proof {
            assert(rest@ =~= s@.drop_first());
        }
        return trim_spaces(rest);
    }
    if doc_space(s.get_char(n - 1)) {
        let rest = s.substring_char(0, n - 1);
        proof {
            assert(rest@ =~= s@.drop_last());
        }
        return trim_spaces(rest);
    }
    String::from_str(s)
}

/// A text split at line breaks, with `cur` the line gathered so far.
pub open spec fn lines_acc(s: Seq<char>, cur: Seq<char>) -> Seq<Seq<char>>
    decreases s.len(),
{
    if s.len() == 0 {
        seq![cur]
    } else if s[0] == '\n' {
        seq![cur] + lines_acc(s.drop_first(), Seq::empty())
    } else {
        lines_acc(s.drop_first(), cur.push(s[0]))
    }
}

/// The lines of a text, in order.
pub open spec fn split_lines(s: Seq<char>) -> Seq<Seq<char>> {
    lines_acc(s, Seq::empty())
}

/// The lines of every string in a list, in order.
pub open spec fn all_lines(texts: Seq<Seq<char>>) -> Seq<Seq<char>>
    decreases texts.len(),
{
    if texts.len() == 0 {
        Seq::empty()
    } else {
        split_lines(texts[0]) + all_lines(texts.drop_first())
    }
}

/// Every line trimmed.
pub open spec fn trimmed_all(ls: Seq<Seq<char>>) -> Seq<Seq<char>> {
    ls.map_values(|p: Seq<char>| trimmed(p))
}

/// The rest of a joined text: each further line after a line break.
pub open spec fn join_rest(ls: Seq<Seq<char>>) -> Seq<char>
    decreases ls.len(),
{
    if ls.len() == 0 {
        Seq::empty()
    } else {
        seq!['\n'] + ls[0] + join_rest(ls.drop_first())
    }
}

/// Lines joined with line breaks.
pub open spec fn joined_lines(ls: Seq<Seq<char>>) -> Seq<char> {
    if ls.len() == 0 {
        Seq::empty()
    } else {
        ls[0] + join_rest(ls.drop_first())
    }
}

/// The normalized docstring of a list of raw doc-comment texts: absent
/// when there are none; otherwise every text is split at line breaks, each
/// line trimmed, and the lines joined with line breaks.
pub open spec fn docstring_of(texts: Seq<Seq<char>>) -> Seq<char> {
    joined_lines(trimmed_all(all_lines(texts)))
}

/// The lines of one text, in order.
#[verifier::loop_isolation(false)]
fn split_lines_vec(s: &str) -> (r: Vec<String>)
    ensures
        crate::schema::name_views(r@) == split_lines(s@),
{
    let n = s.unicode_len();
    let mut parts: Vec<String> = Vec::new();
    let mut cur = String::new();
    let mut i: usize = 0;
    proof {
        assert(s@.skip(0) =~= s@);
        assert(crate::schema::name_views(parts@) + lines_acc(s@, cur@) =~= split_lines(s@));
    }
    while i < n
        invariant
            n == s@.len(),
            0 <= i <= n,
            crate::schema::name_views(parts@) + lines_acc(s@.skip(i as int), cur@) == split_lines(
                s@,
            ),
        decreases n - i,
    {
        proof {
            assert(s@.skip(i as int)[0] == s@[i as int]);
            assert(s@.skip(i as int).drop_first() =~= s@.skip(i + 1));
        }
        let c = s.get_char(i);
        if c == '\n' {
            parts.push(cur);
            cur = String::new();
            proof {
                assert(lines_acc(s@.skip(i as int), parts@[parts@.len() - 1]@) == seq![
                    parts@[parts@.len() - 1]@,
                ] + lines_acc(s@.skip(i + 1), Seq::empty()));
                assert(crate::schema::name_views(parts@) + lines_acc(s@.skip(i + 1), cur@)
                    =~= split_lines(s@));
            }
        } else {
            let ghost cur_before = cur@;
            let piece = s.substring_char(i, i + 1);
            cur.append(piece);
            proof {
                assert(piece@ =~= seq![s@[i as int]]);
                assert(cur@ =~= cur_before.push(s@[i as int]));
                assert(lines_acc(s@.skip(i as int), cur_before) == lines_acc(
                    s@.skip(i + 1),
                    cur_before.push(s@[i as int]),
                ));
                assert(crate::schema::name_views(parts@) + lines_acc(s@.skip(i + 1), cur@)
                    =~= split_lines(s@));
            }
        }
        i += 1;
    }
    proof {
        assert(s@.skip(i as int).len() == 0);
        assert(lines_acc(s@.skip(i as int), cur@) == seq![cur@]);
    }
    parts.push(cur);
    proof {
        assert(crate::schema::name_views(parts@) =~= split_lines(s@));
    }
    parts
}

/// Normalize raw doc-comment texts into one description: absent when
/// there are none; otherwise each text is split at line breaks, every line
/// trimmed, and all lines joined with line breaks.
#[verifier::loop_isolation(false)]
pub fn normalize_docstring(texts: Vec<String>) -> (r: Option<String>)
    ensures
        texts@.len() == 0 <==> r is None,
        r matches Some(d) ==> d@ == docstring_of(crate::schema::name_views(texts@)),
{
    if texts.len() == 0 {
        return None;
    }
    let ghost all = crate::schema::name_views(texts@);
    let mut rest = texts;
    let mut pieces: Vec<String> = Vec::new();
    let ghost mut k: int = 0;
    proof {
        assert(all.take(0) =~= Seq::<Seq<char>>::empty());
        assert(all_lines(all.take(0)) =~= Seq::<Seq<char>>::empty());
        assert(crate::schema::name_views(pieces@) =~= trimmed_all(all_lines(all.take(0))));
    }
    while rest.len() > 0
        invariant
            0 <= k <= all.len(),
            crate::schema::name_views(rest@) =~= all.skip(k),
            crate::schema::name_views(pieces@) =~= trimmed_all(all_lines(all.take(k))),
        decreases rest@.len(),
    {
        proof {
            assert(crate::schema::name_views(rest@)[0] == all.skip(k)[0]);
            assert(all.skip(k)[0] == all[k]);
        }
        let ghost rest_before = rest@;
        let text = rest.remove(0);
        proof {
            assert(rest@ =~= rest_before.drop_first());
            assert forall|m: int| 0 <= m < rest@.len() implies crate::schema::name_views(
                rest@,
            )[m] == all.skip(k + 1)[m] by {
                assert(crate::schema::name_views(rest@)[m] == crate::schema::name_views(
                    rest_before,
                )[m + 1]);
            }
            assert(crate::schema::name_views(rest@) =~= all.skip(k + 1));
            assert(text@ == all[k]);
        }
        let mut lines = split_lines_vec(text.as_str());
        let ghost line_views = crate::schema::name_views(lines@);
        let ghost pieces_before = crate::schema::name_views(pieces@);
        let ghost mut m: int = 0;
        while lines.len() > 0
            invariant
                0 <= m <= line_views.len(),
                crate::schema::name_views(lines@) =~= line_views.skip(m),
                crate::schema::name_views(pieces@) =~= pieces_before + trimmed_all(
                    line_views.take(m),
                ),
            decreases lines@.len(),
        {
            proof {
                assert(crate::schema::name_views(lines@)[0] == line_views.skip(m)[0]);
                assert(line_views.skip(m)[0] == line_views[m]);
            }
            let ghost lines_before = lines@;
            let line = lines.remove(0);
            proof {
                assert(lines@ =~= lines_before.drop_first());
                assert forall|w: int| 0 <= w < lines@.len() implies crate::schema::name_views(
                    lines@,
                )[w] == line_views.skip(m + 1)[w] by {
                    assert(crate::schema::name_views(lines@)[w] == crate::schema::name_views(
                        lines_before,
                    )[w + 1]);
                }
                assert(crate::schema::name_views(lines@) =~= line_views.skip(m + 1));
                assert(line@ == line_views[m]);
            }
            let piece = trim_spaces(line.as_str());
            let ghost piece_view = piece@;
            let ghost p_before = crate::schema::name_views(pieces@);
            pieces.push(piece);
            proof {
                assert(piece_view == trimmed(line_views[m]));
                assert(line_views.take(m + 1) =~= line_views.take(m).push(line_views[m]));
                let target = pieces_before + trimmed_all(line_views.take(m + 1));
                assert(trimmed_all(line_views.take(m + 1)).len() == m + 1);
                assert forall|w: int|
                    0 <= w < crate::schema::name_views(pieces@).len() implies
                    crate::schema::name_views(pieces@)[w] == target[w] by {
                    if w < p_before.len() {
                        assert(crate::schema::name_views(pieces@)[w] == p_before[w]);
                        assert(p_before[w] == (pieces_before + trimmed_all(
                            line_views.take(m),
                        ))[w]);
                        if w >= pieces_before.len() {
                            assert(trimmed_all(line_views.take(m))[w - pieces_before.len()]
                                == trimmed(line_views.take(m)[w - pieces_before.len()]));
                            assert(trimmed_all(line_views.take(m + 1))[w - pieces_before.len()]
                                == trimmed(line_views.take(m + 1)[w - pieces_before.len()]));
                        }
                    } else {
                        assert(crate::schema::name_views(pieces@)[w] == piece_view);
                        assert(target[w] == trimmed_all(line_views.take(m + 1))[m]);
                        assert(trimmed_all(line_views.take(m + 1))[m] == trimmed(
                            line_views.take(m + 1)[m],
                        ));
                    }
                }
                assert(crate::schema::name_views(pieces@) =~= target);
                m = m + 1;
            }
        }
        proof {
            assert(line_views.take(m) =~= line_views);
            assert(all.take(k + 1).drop_last() =~= all.take(k));
            lemma_all_lines_step(all, k);
            assert(trimmed_all(all_lines(all.take(k + 1))) =~= trimmed_all(
                all_lines(all.take(k)),
            ) + trimmed_all(line_views));
            assert(crate::schema::name_views(pieces@) =~= trimmed_all(all_lines(all.take(k + 1))));
            k = k + 1;
        }
    }
    proof {
        assert(all.take(k) =~= all);
    }
    let ghost full = trimmed_all(all_lines(all));
    proof {
        assert(full.len() > 0) by {
            assert(all.len() > 0);
            assert(all.take(1).drop_last() =~= Seq::<Seq<char>>::empty());
            lemma_all_lines_step(all, 0);
            assert(all_lines(all.take(1)) =~= split_lines(all[0]));
            assert(split_lines(all[0]).len() >= 1) by {
                lemma_lines_nonempty(all[0], Seq::empty());
            }
            assert(all_lines(all).len() >= all_lines(all.take(1)).len()) by {
                lemma_all_lines_prefix(all, 1);
            }
        }
    }
    let mut rest_pieces = pieces;
    let first = rest_pieces.remove(0);
    let mut out = first;
    let ghost mut j: int = 1;
    proof {
        assert(out@ == full[0]);
        assert forall|w: int| 0 <= w < rest_pieces@.len() implies crate::schema::name_views(
            rest_pieces@,
        )[w] == full.skip(1)[w] by {
            assert(crate::schema::name_views(rest_pieces@)[w] == full[w + 1]);
        }
        assert(crate::schema::name_views(rest_pieces@) =~= full.skip(1));
        assert(out@ + join_rest(full.skip(j)) == joined_lines(full)) by {
            assert(full.drop_first() =~= full.skip(1));
        }
        reveal_strlit("\n");
    }
    while rest_pieces.len() > 0
        invariant
            1 <= j <= full.len(),
            crate::schema::name_views(rest_pieces@) =~= full.skip(j),
            out@ + join_rest(full.skip(j)) == joined_lines(full),
        decreases rest_pieces@.len(),
    {
        proof {
            assert(crate::schema::name_views(rest_pieces@)[0] == full.skip(j)[0]);
            assert(full.skip(j)[0] == full[j]);
        }
        let ghost rp_before = rest_pieces@;
        let piece = rest_pieces.remove(0);
        proof {
            assert(rest_pieces@ =~= rp_before.drop_first());
            assert forall|w: int| 0 <= w < rest_pieces@.len() implies crate::schema::name_views(
                rest_pieces@,
            )[w] == full.skip(j + 1)[w] by {
                assert(crate::schema::name_views(rest_pieces@)[w] == crate::schema::name_views(
                    rp_before,
                )[w + 1]);
            }
            assert(crate::schema::name_views(rest_pieces@) =~= full.skip(j + 1));
            assert(piece@ == full[j]);
            assert(full.skip(j).drop_first() =~= full.skip(j + 1));
            assert(join_rest(full.skip(j)) == seq!['\n'] + full[j] + join_rest(full.skip(j + 1)));
            assert("\n"@ =~= seq!['\n']);
        }
        out.append("\n");
        out.append(piece.as_str());
        proof {
            assert(out@ + join_rest(full.skip(j + 1)) =~= joined_lines(full));
            j = j + 1;
        }
    }
    proof {
        assert(full.skip(j).len() == 0);
        assert(join_rest(full.skip(j)) == Seq::<char>::empty());
        assert(out@ + Seq::<char>::empty() =~= out@);
    }
    Some(out)
}

/// Splitting the lines of a text prefix one text later.
proof fn lemma_all_lines_step(texts: Seq<Seq<char>>, k: int)
    requires
        0 <= k < texts.len(),
    ensures
        all_lines(texts.take(k + 1)) == all_lines(texts.take(k)) + split_lines(texts[k]),
    decreases k,
{
    if k == 0 {
        assert(texts.take(1)[0] == texts[0]);
        assert(texts.take(1).len() == 1);
        assert(texts.take(1).drop_first() =~= Seq::<Seq<char>>::empty());
        assert(texts.take(0) =~= Seq::<Seq<char>>::empty());
        assert(all_lines(texts.take(1)) == split_lines(texts[0]) + all_lines(
            Seq::<Seq<char>>::empty(),
        ));
        assert(split_lines(texts[0]) + Seq::<Seq<char>>::empty() =~= split_lines(texts[0]));
        assert(Seq::<Seq<char>>::empty() + split_lines(texts[0]) =~= split_lines(texts[0]));
    } else {
        lemma_all_lines_step(texts.drop_first(), k - 1);
        assert(texts.drop_first().take(k) =~= texts.take(k + 1).drop_first());
        assert(texts.drop_first().take(k - 1) =~= texts.take(k).drop_first());
        assert(texts.drop_first()[k - 1] == texts[k]);
        assert(texts.take(k + 1)[0] == texts[0]);
        assert(texts.take(k)[0] == texts[0]);
        assert(all_lines(texts.take(k + 1)) == split_lines(texts[0]) + all_lines(
            texts.drop_first().take(k),
        ));
        assert(all_lines(texts.take(k)) == split_lines(texts[0]) + all_lines(
            texts.drop_first().take(k - 1),
        ));
        assert(split_lines(texts[0]) + (all_lines(texts.drop_first().take(k - 1)) + split_lines(
            texts[k],
        )) =~= (split_lines(texts[0]) + all_lines(texts.drop_first().take(k - 1))) + split_lines(
            texts[k],
        ));
    }
}

/// A split always yields at least one line.
proof fn lemma_lines_nonempty(s: Seq<char>, cur: Seq<char>)
    ensures
        lines_acc(s, cur).len() >= 1,
    decreases s.len(),
{
    if s.len() > 0 {
        if s[0] == '\n' {
        } else {
            lemma_lines_nonempty(s.drop_first(), cur.push(s[0]));
        }
    }
}

/// A prefix of the texts yields a prefix of the lines.
proof fn lemma_all_lines_prefix(texts: Seq<Seq<char>>, k: int)
    requires
        0 <= k <= texts.len(),
    ensures
        all_lines(texts).len() >= all_lines(texts.take(k)).len(),
    decreases texts.len() - k,
{
    if k < texts.len() {
        lemma_all_lines_step(texts, k);
        lemma_all_lines_prefix(texts, k + 1);
        assert(texts.take(texts.len() as int) =~= texts);
    } else {
        assert(texts.take(k) =~= texts);
    }
}

} // verus!
