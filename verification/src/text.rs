//! Character-level helpers: appending to strings and the case conversions
//! used to name generated items.
use vstd::prelude::*;
use case::CaseExt;

verus! {

/// Appends one character to a string.
///
/// Trusted: calls `String::push`, which std documents as appending the given
/// character to the end of the string.
#[verifier::external_body]
pub(crate) fn push_char(s: &mut String, c: char)
    ensures
        final(s)@ == old(s)@.push(c),
{
    s.push(c);
}

/// Whether `c` is one of the ASCII capitals `A` to `Z`.
pub open spec fn is_ascii_upper(c: char) -> bool {
    'A' <= c && c <= 'Z'
}

/// The ASCII lower case counterpart of an ASCII capital.
pub open spec fn ascii_lower(c: char) -> char {
    if is_ascii_upper(c) {
        ((c as int) + 32) as char
    } else {
        c
    }
}

/// What the character at position `i` of a camel case name becomes in its
/// snake case form: capitals are lowered and, except at the start, preceded
/// by an underscore; every other character stays.
pub open spec fn snake_piece(c: char, i: int) -> Seq<char> {
    if is_ascii_upper(c) {
        if i == 0 {
            seq![ascii_lower(c)]
        } else {
            seq!['_', ascii_lower(c)]
        }
    } else {
        seq![c]
    }
}

/// The snake case form of a camel case name, character by character.
pub open spec fn snake_case(s: Seq<char>) -> Seq<char>
    decreases s.len(),
{
    if s.len() == 0 {
        seq![]
    } else {
        snake_case(s.subrange(0, s.len() - 1)) + snake_piece(s.last(), s.len() - 1)
    }
}

/// The snake case form of a camel case name.
///
/// Trusted: calls `case::CaseExt::to_snake`, whose source pushes, for each
/// character, `_` and the ASCII lower case letter when the character is an
/// ASCII capital not at index 0, the lower case letter alone for an ASCII
/// capital at index 0, and the character itself otherwise: `snake_case`.
#[verifier::external_body]
pub(crate) fn to_snake(s: &str) -> (res: String)
    ensures
        res@ == snake_case(s@),
{
    CaseExt::to_snake(s)
}

/// The Unicode lower case form of a string, as `str::to_lowercase` computes it.
pub uninterp spec fn lowercase(s: Seq<char>) -> Seq<char>;

/// The lower case form of a string.
///
/// Trusted: calls `str::to_lowercase`; its result is named `lowercase` of the
/// argument's characters, and nothing more is said of it.
#[verifier::external_body]
pub(crate) fn to_lowercase(s: &str) -> (res: String)
    ensures
        res@ == lowercase(s@),
{
    s.to_lowercase()
}


/// The texts `f(x)` of the elements `x` of `s`, one after another.
pub open spec fn concat_map<A>(s: Seq<A>, f: spec_fn(A) -> Seq<char>) -> Seq<char>
    decreases s.len(),
{
    if s.len() == 0 {
        seq![]
    } else {
        concat_map(s.subrange(0, s.len() - 1), f) + f(s[s.len() - 1])
    }
}

/// `concat_map` of a sequence with one more element at its end.
pub proof fn lemma_concat_map_push<A>(s: Seq<A>, x: A, f: spec_fn(A) -> Seq<char>)
    ensures
        concat_map(s.push(x), f) == concat_map(s, f) + f(x),
{
    assert(s.push(x).subrange(0, s.len() as int) =~= s);
}

/// `concat_map` of the first `i + 1` elements of a sequence.
pub proof fn lemma_concat_map_take<A>(s: Seq<A>, i: int, f: spec_fn(A) -> Seq<char>)
    requires
        0 <= i < s.len(),
    ensures
        concat_map(s.take(i + 1), f) == concat_map(s.take(i), f) + f(s[i]),
{
    assert(s.take(i + 1) =~= s.take(i).push(s[i]));
    lemma_concat_map_push(s.take(i), s[i], f);
}



/// `concat_map` of two sequences one after the other.
pub proof fn lemma_concat_map_append<A>(a: Seq<A>, b: Seq<A>, f: spec_fn(A) -> Seq<char>)
    ensures
        concat_map(a + b, f) == concat_map(a, f) + concat_map(b, f),
    decreases b.len(),
{
    if b.len() == 0 {
        assert(a + b =~= a);
        assert(concat_map(a, f) + concat_map(b, f) =~= concat_map(a, f));
    } else {
        let b0 = b.subrange(0, b.len() - 1);
        lemma_concat_map_append(a, b0, f);
        assert((a + b).subrange(0, (a + b).len() - 1) =~= a + b0);
        assert((a + b)[(a + b).len() - 1] == b[b.len() - 1]);
        assert(concat_map(a + b, f) =~= concat_map(a, f) + concat_map(b, f));
    }
}


/// Whether `piece` stands somewhere in `text`.
pub open spec fn has_infix(text: Seq<char>, piece: Seq<char>) -> bool {
    exists|i: int|
        0 <= i && i + piece.len() <= text.len() && #[trigger] text.subrange(i, i + piece.len())
            == piece
}

/// A text holds what a part of it holds.
pub proof fn lemma_infix_around(a: Seq<char>, t: Seq<char>, b: Seq<char>, piece: Seq<char>)
    requires
        has_infix(t, piece),
    ensures
        has_infix(a + t + b, piece),
{
    let i = choose|i: int|
        0 <= i && i + piece.len() <= t.len() && #[trigger] t.subrange(i, i + piece.len()) == piece;
    let j = a.len() + i;
    assert((a + t + b).subrange(j, j + piece.len()) =~= t.subrange(i, i + piece.len()));
}

/// A text holds itself.
pub proof fn lemma_infix_self(t: Seq<char>)
    ensures
        has_infix(t, t),
{
    let i: int = 0;
    assert(t.subrange(i, i + t.len()) =~= t);
}

/// A text holds what a part of it holds, at any depth.
pub proof fn lemma_infix_trans(t: Seq<char>, p: Seq<char>, q: Seq<char>)
    requires
        has_infix(t, p),
        has_infix(p, q),
    ensures
        has_infix(t, q),
{
    let i = choose|i: int|
        0 <= i && i + p.len() <= t.len() && #[trigger] t.subrange(i, i + p.len()) == p;
    let j = choose|j: int|
        0 <= j && j + q.len() <= p.len() && #[trigger] p.subrange(j, j + q.len()) == q;
    assert(t.subrange(i + j, i + j + q.len()) =~= p.subrange(j, j + q.len()));
}

/// `concat_map` of a sequence holds the text of each of its elements.
pub proof fn lemma_concat_map_has<A>(s: Seq<A>, k: int, f: spec_fn(A) -> Seq<char>)
    requires
        0 <= k < s.len(),
    ensures
        has_infix(concat_map(s, f), f(s[k])),
{
    assert(s =~= s.take(k + 1) + s.skip(k + 1));
    lemma_concat_map_append(s.take(k + 1), s.skip(k + 1), f);
    lemma_concat_map_take(s, k, f);
    lemma_infix_self(f(s[k]));
    lemma_infix_around(concat_map(s.take(k), f), f(s[k]), concat_map(s.skip(k + 1), f), f(s[k]));
    assert(concat_map(s.take(k), f) + f(s[k]) + concat_map(s.skip(k + 1), f) == concat_map(s, f));
}

/// The strings of `s`, each once, in the order in which they first appear.
pub open spec fn distinct(s: Seq<Seq<char>>) -> Seq<Seq<char>>
    decreases s.len(),
{
    if s.len() == 0 {
        seq![]
    } else {
        let d = distinct(s.subrange(0, s.len() - 1));
        if d.contains(s[s.len() - 1]) {
            d
        } else {
            d.push(s[s.len() - 1])
        }
    }
}

/// `distinct` of a sequence with one more string at its end.
pub proof fn lemma_distinct_push(s: Seq<Seq<char>>, x: Seq<char>)
    ensures
        distinct(s.push(x)) == if distinct(s).contains(x) {
            distinct(s)
        } else {
            distinct(s).push(x)
        },
{
    assert(s.push(x).subrange(0, s.len() as int) =~= s);
}

/// `distinct` keeps each string of `s`, once.
pub proof fn lemma_distinct(s: Seq<Seq<char>>, x: Seq<char>)
    ensures
        distinct(s).contains(x) <==> s.contains(x),
        distinct(s).no_duplicates(),
    decreases s.len(),
{
    if s.len() > 0 {
        let pre = s.subrange(0, s.len() - 1);
        let y = s[s.len() - 1];
        lemma_distinct(pre, x);
        lemma_distinct(pre, y);
        assert(s =~= pre.push(y));
        lemma_push_contains(pre, y, x);
        let d = distinct(pre);
        if !d.contains(y) {
            lemma_push_contains(d, y, x);
            let dp = d.push(y);
            assert forall|i: int, j: int|
                0 <= i < dp.len() && 0 <= j < dp.len() && i != j implies #[trigger] dp[i]
                != #[trigger] dp[j] by {
                if j == d.len() {
                    assert(d.contains(d[i]));
                } else if i == d.len() {
                    assert(d.contains(d[j]));
                }
            }
        }
    }
}

/// A sequence with one more string at its end holds what the sequence holds,
/// and that string.
pub proof fn lemma_push_contains(d: Seq<Seq<char>>, x: Seq<char>, m: Seq<char>)
    ensures
        d.push(x).contains(m) <==> d.contains(m) || x == m,
{
    let dp = d.push(x);
    if dp.contains(m) {
        let i = choose|i: int| 0 <= i < dp.len() && dp[i] == m;
        if i < d.len() {
            assert(d[i] == m);
        }
    }
    if d.contains(m) {
        let i = choose|i: int| 0 <= i < d.len() && d[i] == m;
        assert(dp[i] == m);
    }
    if x == m {
        assert(dp[d.len() as int] == m);
    }
}

/// Whether `s` is one of the strings of `v`.
pub fn contains_string(v: &Vec<String>, s: &String) -> (res: bool)
    ensures
        res == v.deep_view().contains(s@),
{
    let n = v.len();
    for i in 0..n
        invariant
            n == v.len(),
            forall|j: int| 0 <= j < i ==> v.deep_view()[j] != s@,
    {
        if v[i] == *s {
            assert(v.deep_view()[i as int] == s@);
            return true;
        }
    }
    false
}

/// Appends `s` to `acc` unless `acc` holds it already.
pub fn push_distinct(acc: &mut Vec<String>, s: &String)
    ensures
        final(acc).deep_view() == if old(acc).deep_view().contains(s@) {
            old(acc).deep_view()
        } else {
            old(acc).deep_view().push(s@)
        },
{
    if !contains_string(acc, s) {
        let ghost before = acc.deep_view();
        acc.push(s.clone());
        assert(acc.deep_view() =~= before.push(s@));
    }
}

} // verus!
