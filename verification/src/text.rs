//! Text building blocks shared by the library: decimal rendering of indices,
//! the byte order of strings, sorting and joining names, and trimming of
//! trailing whitespace.

use vstd::prelude::*;
use vstd::relations::{sorted_by, total_ordering};

verus! {

/// The ASCII digit for a value below ten.
pub open spec fn digit_char(d: nat) -> char {
    if d == 0 {
        '0'
    } else if d == 1 {
        '1'
    } else if d == 2 {
        '2'
    } else if d == 3 {
        '3'
    } else if d == 4 {
        '4'
    } else if d == 5 {
        '5'
    } else if d == 6 {
        '6'
    } else if d == 7 {
        '7'
    } else if d == 8 {
        '8'
    } else {
        '9'
    }
}

/// The decimal notation of `n`, without leading zeros.
pub open spec fn decimal(n: nat) -> Seq<char>
    decreases n,
{
    if n < 10 {
        seq![digit_char(n)]
    } else {
        decimal(n / 10).push(digit_char(n % 10))
    }
}

fn digit_str(d: usize) -> (s: &'static str)
    requires
        d < 10,
    ensures
        s@ == seq![digit_char(d as nat)],
{
    if d == 0 {
        proof { reveal_strlit("0"); }
        "0"
    } else if d == 1 {
        proof { reveal_strlit("1"); }
        "1"
    } else if d == 2 {
        proof { reveal_strlit("2"); }
        "2"
    } else if d == 3 {
        proof { reveal_strlit("3"); }
        "3"
    } else if d == 4 {
        proof { reveal_strlit("4"); }
        "4"
    } else if d == 5 {
        proof { reveal_strlit("5"); }
        "5"
    } else if d == 6 {
        proof { reveal_strlit("6"); }
        "6"
    } else if d == 7 {
        proof { reveal_strlit("7"); }
        "7"
    } else if d == 8 {
        proof { reveal_strlit("8"); }
        "8"
    } else {
        proof { reveal_strlit("9"); }
        "9"
    }
}

/// Renders `n` in decimal.
pub fn decimal_string(n: usize) -> (s: String)
    ensures
        s@ == decimal(n as nat),
    decreases n,
{
    if n < 10 {
        String::from_str(digit_str(n))
    } else {
        let mut s = decimal_string(n / 10);
        s.append(digit_str(n % 10));
        s
    }
}

/// `a` comes no later than `b` in the order of their characters' code
/// points, compared position by position, a proper prefix coming first.
/// For UTF-8 text this is also the order of the encoded bytes.
pub open spec fn lex_le(a: Seq<char>, b: Seq<char>) -> bool
    decreases a.len(),
{
    if a.len() == 0 {
        true
    } else if b.len() == 0 {
        false
    } else if a[0] != b[0] {
        (a[0] as int) < (b[0] as int)
    } else {
        lex_le(a.drop_first(), b.drop_first())
    }
}

proof fn lemma_lex_le_reflexive(a: Seq<char>)
    ensures
        lex_le(a, a),
    decreases a.len(),
{
    if a.len() > 0 {
        lemma_lex_le_reflexive(a.drop_first());
    }
}

proof fn lemma_lex_le_antisymmetric(a: Seq<char>, b: Seq<char>)
    requires
        lex_le(a, b),
        lex_le(b, a),
    ensures
        a == b,
    decreases a.len(),
{
    if a.len() > 0 && b.len() > 0 {
        if a[0] == b[0] {
            lemma_lex_le_antisymmetric(a.drop_first(), b.drop_first());
            assert(a =~= seq![a[0]] + a.drop_first());
            assert(b =~= seq![b[0]] + b.drop_first());
        }
    }
}

proof fn lemma_lex_le_transitive(a: Seq<char>, b: Seq<char>, c: Seq<char>)
    requires
        lex_le(a, b),
        lex_le(b, c),
    ensures
        lex_le(a, c),
    decreases a.len(),
{
    if a.len() > 0 && b.len() > 0 && c.len() > 0 {
        if a[0] == b[0] && b[0] == c[0] {
            lemma_lex_le_transitive(a.drop_first(), b.drop_first(), c.drop_first());
        }
    }
}

proof fn lemma_lex_le_total(a: Seq<char>, b: Seq<char>)
    ensures
        lex_le(a, b) || lex_le(b, a),
    decreases a.len(),
{
    if a.len() > 0 && b.len() > 0 && a[0] == b[0] {
        lemma_lex_le_total(a.drop_first(), b.drop_first());
    }
}

/// The order `lex_le` is a total order on texts.
pub proof fn lemma_lex_le_total_ordering()
    ensures
        total_ordering(|a: Seq<char>, b: Seq<char>| lex_le(a, b)),
{
    let r = |a: Seq<char>, b: Seq<char>| lex_le(a, b);
    assert forall|a: Seq<char>| #[trigger] r(a, a) by {
        lemma_lex_le_reflexive(a);
    }
    assert forall|a: Seq<char>, b: Seq<char>| #[trigger] r(a, b) && #[trigger] r(b, a) implies a
        == b by {
        lemma_lex_le_antisymmetric(a, b);
    }
    assert forall|a: Seq<char>, b: Seq<char>, c: Seq<char>| #[trigger] r(a, b) && #[trigger] r(
        b,
        c,
    ) implies r(a, c) by {
        lemma_lex_le_transitive(a, b, c);
    }
    assert forall|a: Seq<char>, b: Seq<char>| #[trigger] r(a, b) || #[trigger] r(b, a) by {
        lemma_lex_le_total(a, b);
    }
}

proof fn lemma_lex_le_skip(a: Seq<char>, b: Seq<char>, i: int)
    requires
        0 <= i <= a.len(),
        i <= b.len(),
        a.take(i) == b.take(i),
    ensures
        lex_le(a, b) == lex_le(a.skip(i), b.skip(i)),
    decreases i,
{
    if i > 0 {
        assert(a[0] == a.take(i)[0]);
        assert(b[0] == b.take(i)[0]);
        assert(a.drop_first().take(i - 1) =~= a.take(i).drop_first());
        assert(b.drop_first().take(i - 1) =~= b.take(i).drop_first());
        lemma_lex_le_skip(a.drop_first(), b.drop_first(), i - 1);
        assert(a.drop_first().skip(i - 1) =~= a.skip(i));
        assert(b.drop_first().skip(i - 1) =~= b.skip(i));
    } else {
        assert(a.skip(0) =~= a);
        assert(b.skip(0) =~= b);
    }
}

/// The characters of `s`, one by one.
pub fn chars_of(s: &str) -> (v: Vec<char>)
    ensures
        v@ == s@,
{
    let n = s.unicode_len();
    let mut v: Vec<char> = Vec::new();
    for i in 0..n
        invariant
            n == s@.len(),
            v@ == s@.take(i as int),
    {
        v.push(s.get_char(i));
        assert(v@ =~= s@.take(i + 1));
    }
    assert(v@ =~= s@);
    v
}

/// Decides `lex_le(a, b)`.
pub fn str_lex_le(a: &str, b: &str) -> (r: bool)
    ensures
        r == lex_le(a@, b@),
{
    let x = chars_of(a);
    let y = chars_of(b);
    let mut i: usize = 0;
    while i < x.len() && i < y.len() && x[i] == y[i]
        invariant
            i <= x@.len(),
            i <= y@.len(),
            x@ == a@,
            y@ == b@,
            x@.take(i as int) == y@.take(i as int),
        decreases x@.len() - i,
    {
        assert(x@.take(i + 1) =~= x@.take(i as int).push(x@[i as int]));
        assert(y@.take(i + 1) =~= y@.take(i as int).push(y@[i as int]));
        i = i + 1;
    }
    proof {
        lemma_lex_le_skip(x@, y@, i as int);
    }
    if i == x.len() {
        true
    } else if i == y.len() {
        false
    } else {
        x[i] < y[i]
    }
}

/// Whether two texts are the same.
pub fn str_equal(a: &str, b: &str) -> (r: bool)
    ensures
        r == (a@ == b@),
{
    let x = a.to_owned();
    let y = b.to_owned();
    x == y
}

/// The views of a sequence of strings.
pub open spec fn texts(v: Seq<String>) -> Seq<Seq<char>> {
    v.map_values(|s: String| s@)
}

/// The order in which names are listed to a user.
pub open spec fn text_order() -> spec_fn(Seq<char>, Seq<char>) -> bool {
    |a: Seq<char>, b: Seq<char>| lex_le(a, b)
}

/// Copies of the strings in `items`, sorted by `lex_le`.
pub fn sorted_texts(items: &Vec<String>) -> (r: Vec<String>)
    ensures
        texts(r@) == texts(items@).sort_by(text_order()),
{
    broadcast use vstd::seq_lib::group_to_multiset_ensures;

    let mut out: Vec<String> = Vec::new();
    for i in 0..items.len()
        invariant
            sorted_by(texts(out@), text_order()),
            texts(out@).to_multiset() == texts(items@.take(i as int)).to_multiset(),
    {
        let x = items[i].clone();
        let mut p: usize = 0;
        while p < out.len() && str_lex_le(out[p].as_str(), x.as_str())
            invariant
                p <= out@.len(),
                forall|q: int| 0 <= q < p ==> lex_le(#[trigger] out@[q]@, x@),
            decreases out@.len() - p,
        {
            p = p + 1;
        }
        proof {
            lemma_lex_le_total_ordering();
            let old_texts = texts(out@);
            let new_texts = old_texts.insert(p as int, x@);
            assert forall|a: int, b: int| 0 <= a < b < new_texts.len() implies #[trigger] (
            text_order())(new_texts[a], new_texts[b]) by {
                if b < p {
                    assert(new_texts[a] == old_texts[a] && new_texts[b] == old_texts[b]);
                } else if b == p {
                    assert(new_texts[b] == x@);
                    assert(new_texts[a] == out@[a]@);
                } else if a == p {
                    assert(p < out@.len());
                    assert(!lex_le(out@[p as int]@, x@));
                    lemma_lex_le_total(out@[p as int]@, x@);
                    assert(new_texts[b] == old_texts[b - 1]);
                    if b - 1 > p {
                        assert((text_order())(old_texts[p as int], old_texts[b - 1]));
                        lemma_lex_le_transitive(x@, out@[p as int]@, out@[b - 1]@);
                    }
                } else if a < p {
                    assert(new_texts[a] == old_texts[a] && new_texts[b] == old_texts[b - 1]);
                    assert((text_order())(old_texts[a], old_texts[b - 1]));
                } else {
                    assert(new_texts[a] == old_texts[a - 1] && new_texts[b] == old_texts[b - 1]);
                    assert((text_order())(old_texts[a - 1], old_texts[b - 1]));
                }
            }
            assert(items@.take(i + 1) =~= items@.take(i as int).push(items@[i as int]));
            assert(texts(items@.take(i + 1)) =~= texts(items@.take(i as int)).push(x@));
        }
        let ghost before = out@;
        out.insert(p, x);
        proof {
            assert(texts(out@) =~= texts(before).insert(p as int, items@[i as int]@));
            vstd::seq_lib::to_multiset_insert(texts(before), p as int, items@[i as int]@);
            vstd::seq_lib::to_multiset_build(texts(items@.take(i as int)), items@[i as int]@);
            assert(texts(items@.take(i + 1)) =~= texts(items@.take(i as int)).push(
                items@[i as int]@,
            ));
            assert(texts(out@).to_multiset() == texts(before).to_multiset().insert(
                items@[i as int]@,
            ));
            assert(texts(items@.take(i + 1)).to_multiset() == texts(
                items@.take(i as int),
            ).to_multiset().insert(items@[i as int]@));
        }
    }
    proof {
        lemma_lex_le_total_ordering();
        assert(items@.take(items@.len() as int) =~= items@);
        texts(items@).lemma_sort_by_ensures(text_order());
        vstd::seq_lib::lemma_sorted_unique(
            texts(out@),
            texts(items@).sort_by(text_order()),
            text_order(),
        );
    }
    out
}

/// The texts of `items` with `sep` between each two neighbours.
pub open spec fn join(items: Seq<Seq<char>>, sep: Seq<char>) -> Seq<char>
    decreases items.len(),
{
    if items.len() == 0 {
        seq![]
    } else if items.len() == 1 {
        items[0]
    } else {
        join(items.drop_last(), sep) + sep + items.last()
    }
}

/// Joins the strings of `items` with `sep`, as `join` describes.
pub fn join_texts(items: &Vec<String>, sep: &str) -> (s: String)
    ensures
        s@ == join(texts(items@), sep@),
{
    let mut s = String::new();
    for i in 0..items.len()
        invariant
            s@ == join(texts(items@.take(i as int)), sep@),
    {
        let ghost prefix = texts(items@.take(i as int));
        assert(texts(items@.take(i + 1)) =~= prefix.push(items@[i as int]@));
        assert(texts(items@.take(i + 1)).drop_last() =~= prefix);
        if i != 0 {
            s.append(sep);
        }
        s.append(items[i].as_str());
    }
    assert(items@.take(items@.len() as int) =~= items@);
    s
}

/// A character that `char::is_whitespace` accepts: the Unicode `White_Space` set.
pub open spec fn is_white_space(c: char) -> bool {
    ||| ('\u{9}' <= c && c <= '\u{d}')
    ||| c == ' '
    ||| c == '\u{85}'
    ||| c == '\u{a0}'
    ||| c == '\u{1680}'
    ||| ('\u{2000}' <= c && c <= '\u{200a}')
    ||| c == '\u{2028}'
    ||| c == '\u{2029}'
    ||| c == '\u{202f}'
    ||| c == '\u{205f}'
    ||| c == '\u{3000}'
}

fn white_space(c: char) -> (r: bool)
    ensures
        r == is_white_space(c),
{
    ('\u{9}' <= c && c <= '\u{d}') || c == ' ' || c == '\u{85}' || c == '\u{a0}' || c == '\u{1680}'
        || ('\u{2000}' <= c && c <= '\u{200a}') || c == '\u{2028}' || c == '\u{2029}' || c
        == '\u{202f}' || c == '\u{205f}' || c == '\u{3000}'
}

/// `s` without the white space at its end.
pub open spec fn trim_end(s: Seq<char>) -> Seq<char>
    decreases s.len(),
{
    if s.len() > 0 && is_white_space(s.last()) {
        trim_end(s.drop_last())
    } else {
        s
    }
}

/// Removes the white space at the end of `s`, as `trim_end` describes.
pub fn trimmed_end(s: &str) -> (r: String)
    ensures
        r@ == trim_end(s@),
{
    let v = chars_of(s);
    let mut k = v.len();
    assert(s@.take(k as int) =~= s@);
    while k > 0 && white_space(v[k - 1])
        invariant
            k <= v@.len(),
            v@ == s@,
            trim_end(s@) == trim_end(s@.take(k as int)),
        decreases k,
    {
        assert(s@.take(k as int).drop_last() =~= s@.take(k - 1));
        k = k - 1;
    }
    assert(s@.take(v@.len() as int) =~= s@);
    String::from_str(s.substring_char(0, k))
}

} // verus!
